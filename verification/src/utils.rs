//! Sorting and table helpers: the stable argsort that drives neighbor
//! ranking, plus small vector utilities.

use vstd::prelude::*;

verus! {

/// Index `a` comes before index `b` in the stable ascending order of `v`:
/// strictly smaller value first, equal values by original index.
pub open spec fn stable_before(v: Seq<i64>, a: usize, b: usize) -> bool {
    v[a as int] < v[b as int] || (v[a as int] == v[b as int] && a < b)
}

/// `r` lists indices of `v` in ascending stable order.
pub open spec fn is_stable_order(v: Seq<i64>, r: Seq<usize>) -> bool {
    forall|p: int, q: int|
        #![trigger r[p], r[q]]
        0 <= p < q < r.len() ==> stable_before(v, r[p], r[q])
}

/// Insert index `k` into an ordered index list: `k` goes in front of the
/// first index whose value is strictly larger, so among equal values a
/// later index lands after the earlier ones.
pub open spec fn insert_sorted(r: Seq<usize>, v: Seq<i64>, k: usize) -> Seq<usize>
    decreases r.len(),
{
    if r.len() == 0 {
        seq![k]
    } else if v[r[0] as int] > v[k as int] {
        seq![k] + r
    } else {
        seq![r[0]] + insert_sorted(r.drop_first(), v, k)
    }
}

/// Stable argsort of the indices `0 .. n`, built by inserting each index
/// in turn.
pub open spec fn argsort_prefix(v: Seq<i64>, n: nat) -> Seq<usize>
    decreases n,
{
    if n == 0 {
        Seq::empty()
    } else {
        insert_sorted(argsort_prefix(v, (n - 1) as nat), v, (n - 1) as usize)
    }
}

/// The stable argsort of `v`: all indices of `v`, ascending by value,
/// ties broken by original index.
pub open spec fn stable_argsort(v: Seq<i64>) -> Seq<usize> {
    argsort_prefix(v, v.len())
}

/// Filtering a list extended by one element keeps the old selection and
/// appends the new element exactly when it passes.
pub proof fn lemma_filter_push<A>(s: Seq<A>, pred: spec_fn(A) -> bool, x: A)
    ensures
        s.push(x).filter(pred) == s.filter(pred) + (if pred(x) {
            seq![x]
        } else {
            Seq::<A>::empty()
        }),
{
    reveal(Seq::filter);
    assert(s.push(x).drop_last() =~= s);
    assert(s.push(x).last() == x);
    if pred(x) {
        assert(s.push(x).filter(pred) =~= s.filter(pred) + seq![x]);
    } else {
        assert(s.push(x).filter(pred) =~= s.filter(pred) + Seq::<A>::empty());
    }
}

proof fn lemma_insert_sorted_props(r: Seq<usize>, v: Seq<i64>, k: usize)
    requires
        is_stable_order(v, r),
        forall|i: int| 0 <= i < r.len() ==> (#[trigger] r[i]) < k,
    ensures
        insert_sorted(r, v, k).len() == r.len() + 1,
        is_stable_order(v, insert_sorted(r, v, k)),
        forall|i: int|
            0 <= i < insert_sorted(r, v, k).len() ==> (#[trigger] insert_sorted(r, v, k)[i])
                < k + 1,
        forall|x: usize| #[trigger]
            insert_sorted(r, v, k).contains(x) <==> (r.contains(x) || x == k),
    decreases r.len(),
{
    let s = insert_sorted(r, v, k);
    if r.len() == 0 {
        assert(s =~= seq![k]);
        assert(s[0] == k);
        assert forall|x: usize| #[trigger] s.contains(x) <==> (r.contains(x) || x == k) by {
            if x == k {
                assert(s[0] == x);
            }
        }
    } else if v[r[0] as int] > v[k as int] {
        assert(s =~= seq![k] + r);
        assert(s[0] == k);
        assert forall|p: int, q: int|
            #![trigger s[p], s[q]]
            0 <= p < q < s.len() implies stable_before(v, s[p], s[q]) by {
            if p == 0 {
                // s[q] is r[q - 1]; its value is at least v[r[0]], which
                // exceeds v[k].
                assert(s[q] == r[q - 1]);
                if q > 1 {
                    assert(stable_before(v, r[0], r[q - 1]));
                }
            } else {
                assert(s[p] == r[p - 1] && s[q] == r[q - 1]);
                assert(stable_before(v, r[p - 1], r[q - 1]));
            }
        }
        assert forall|x: usize| #[trigger] s.contains(x) <==> (r.contains(x) || x == k) by {
            if s.contains(x) {
                let w = choose|w: int| 0 <= w < s.len() && s[w] == x;
                if w == 0 {
                    assert(x == k);
                } else {
                    assert(r[w - 1] == x);
                    assert(r.contains(x));
                }
            }
            if x == k {
                assert(s[0] == x);
            }
            if r.contains(x) {
                let w = choose|w: int| 0 <= w < r.len() && r[w] == x;
                assert(s[w + 1] == x);
            }
        }
    } else {
        let rest = r.drop_first();
        assert forall|p: int, q: int|
            #![trigger rest[p], rest[q]]
            0 <= p < q < rest.len() implies stable_before(v, rest[p], rest[q]) by {
            assert(rest[p] == r[p + 1] && rest[q] == r[q + 1]);
            assert(stable_before(v, r[p + 1], r[q + 1]));
        }
        lemma_insert_sorted_props(rest, v, k);
        let t = insert_sorted(rest, v, k);
        assert(s =~= seq![r[0]] + t);
        // r[0] comes before k: its value is no larger, and on a tie its
        // index is smaller because every index of r is below k.
        assert(stable_before(v, r[0], k));
        assert forall|p: int, q: int|
            #![trigger s[p], s[q]]
            0 <= p < q < s.len() implies stable_before(v, s[p], s[q]) by {
            if p == 0 {
                assert(s[q] == t[q - 1]);
                assert(t.contains(t[q - 1]));
                let x = t[q - 1];
                if x == k {
                    assert(stable_before(v, r[0], k));
                } else {
                    assert(rest.contains(x));
                    let w = choose|w: int| 0 <= w < rest.len() && rest[w] == x;
                    assert(rest[w] == r[w + 1]);
                    assert(stable_before(v, r[0], r[w + 1]));
                }
            } else {
                assert(s[p] == t[p - 1] && s[q] == t[q - 1]);
                assert(stable_before(v, t[p - 1], t[q - 1]));
            }
        }
        assert forall|x: usize| #[trigger] s.contains(x) <==> (r.contains(x) || x == k) by {
            if s.contains(x) {
                let w = choose|w: int| 0 <= w < s.len() && s[w] == x;
                if w == 0 {
                    assert(r[0] == x);
                    assert(r.contains(x));
                } else {
                    assert(t[w - 1] == x);
                    assert(t.contains(x));
                    if x != k {
                        assert(rest.contains(x));
                        let u = choose|u: int| 0 <= u < rest.len() && rest[u] == x;
                        assert(r[u + 1] == x);
                        assert(r.contains(x));
                    }
                }
            }
            if x == k {
                assert(t.contains(x));
                let w = choose|w: int| 0 <= w < t.len() && t[w] == x;
                assert(s[w + 1] == x);
            }
            if r.contains(x) {
                let w = choose|w: int| 0 <= w < r.len() && r[w] == x;
                if w == 0 {
                    assert(s[0] == x);
                } else {
                    assert(rest[w - 1] == x);
                    assert(rest.contains(x));
                    assert(t.contains(x));
                    let u = choose|u: int| 0 <= u < t.len() && t[u] == x;
                    assert(s[u + 1] == x);
                }
            }
        }
    }
}

proof fn lemma_argsort_prefix_props(v: Seq<i64>, n: nat)
    requires
        n <= v.len(),
        n <= usize::MAX,
    ensures
        argsort_prefix(v, n).len() == n,
        is_stable_order(v, argsort_prefix(v, n)),
        forall|i: int| 0 <= i < n ==> (#[trigger] argsort_prefix(v, n)[i]) < n,
        forall|x: usize| #[trigger] argsort_prefix(v, n).contains(x) <==> (x as nat) < n,
    decreases n,
{
    if n > 0 {
        lemma_argsort_prefix_props(v, (n - 1) as nat);
        lemma_insert_sorted_props(argsort_prefix(v, (n - 1) as nat), v, (n - 1) as usize);
    }
}

/// What the stable argsort of any value list looks like: one entry per
/// index, every index present, ascending by value with ties broken by
/// original index — hence no duplicates.
pub proof fn lemma_stable_argsort_props(v: Seq<i64>)
    requires
        v.len() <= usize::MAX,
    ensures
        stable_argsort(v).len() == v.len(),
        is_stable_order(v, stable_argsort(v)),
        forall|i: int| 0 <= i < v.len() ==> (#[trigger] stable_argsort(v)[i]) < v.len(),
        forall|x: usize| #[trigger] stable_argsort(v).contains(x) <==> (x as int) < v.len(),
        stable_argsort(v).no_duplicates(),
{
    lemma_argsort_prefix_props(v, v.len());
    let r = stable_argsort(v);
    assert forall|p: int, q: int|
        0 <= p < r.len() && 0 <= q < r.len() && p != q implies r[p] != r[q] by {
        if p < q {
            assert(stable_before(v, r[p], r[q]));
        } else {
            assert(stable_before(v, r[q], r[p]));
        }
    }
}

proof fn lemma_insert_sorted_at(r: Seq<usize>, v: Seq<i64>, k: usize, p: int)
    requires
        0 <= p <= r.len(),
        forall|q: int| 0 <= q < p ==> v[(#[trigger] r[q]) as int] <= v[k as int],
        p == r.len() || v[r[p] as int] > v[k as int],
    ensures
        insert_sorted(r, v, k) == r.insert(p, k),
    decreases r.len(),
{
    if r.len() == 0 {
        assert(insert_sorted(r, v, k) =~= r.insert(p, k));
    } else if p == 0 {
        assert(insert_sorted(r, v, k) =~= r.insert(0, k));
    } else {
        assert(v[r[0] as int] <= v[k as int]);
        let rest = r.drop_first();
        lemma_insert_sorted_at(rest, v, k, p - 1);
        assert(insert_sorted(r, v, k) =~= r.insert(p, k));
    }
}

/// Simple implementation of an argsort for a vector: returns the indices
/// of the vector in ascending stable order of their values (equal values
/// keep their original index order).
pub fn argsort(v: &Vec<i64>) -> (r: Vec<usize>)
    ensures
        r@ == stable_argsort(v@),
        r@.len() == v@.len(),
        is_stable_order(v@, r@),
        forall|i: int| 0 <= i < r@.len() ==> (#[trigger] r@[i]) < v@.len(),
        r@.no_duplicates(),
        forall|x: usize| #[trigger] r@.contains(x) <==> (x as int) < v@.len(),
{
    let n = v.len();
    let mut r: Vec<usize> = Vec::new();
    let mut k: usize = 0;
    while k < n
        invariant
            k <= n,
            n == v@.len(),
            r@ == argsort_prefix(v@, k as nat),
            r@.len() == k,
            forall|i: int| 0 <= i < r@.len() ==> (#[trigger] r@[i]) < k,
        decreases n - k,
    {
        let mut p: usize = 0;
        while p < r.len() && v[r[p]] <= v[k]
            invariant
                p <= r@.len(),
                k < n,
                n == v@.len(),
                r@.len() == k,
                forall|i: int| 0 <= i < r@.len() ==> (#[trigger] r@[i]) < k,
                forall|q: int| 0 <= q < p ==> v@[(#[trigger] r@[q]) as int] <= v@[k as int],
            decreases r@.len() - p,
        {
            p += 1;
        }
        proof {
            lemma_insert_sorted_at(r@, v@, k, p as int);
        }
        r.insert(p, k);
        k += 1;
    }
    proof {
        lemma_stable_argsort_props(v@);
    }
    r
}

/// Transpose a row-major table of copyable values. Rows may be longer
/// than the first row; the extra entries are dropped, as the column count
/// is taken from the first row.
pub fn transpose<T: Copy>(v: Vec<Vec<T>>) -> (r: Vec<Vec<T>>)
    requires
        v@.len() > 0,
        forall|i: int| 0 <= i < v@.len() ==> (#[trigger] v@[i])@.len() >= v@[0]@.len(),
    ensures
        r@.len() == v@[0]@.len(),
        forall|c: int| 0 <= c < r@.len() ==> (#[trigger] r@[c])@.len() == v@.len(),
        forall|c: int, i: int|
            0 <= c < r@.len() && 0 <= i < v@.len() ==> (#[trigger] r@[c]@[i]) == v@[i]@[c],
{
    let len = v[0].len();
    let mut r: Vec<Vec<T>> = Vec::new();
    let mut c: usize = 0;
    while c < len
        invariant
            c <= len,
            len == v@[0]@.len(),
            v@.len() > 0,
            forall|i: int| 0 <= i < v@.len() ==> (#[trigger] v@[i])@.len() >= len,
            r@.len() == c,
            forall|d: int| 0 <= d < c ==> (#[trigger] r@[d])@.len() == v@.len(),
            forall|d: int, i: int|
                0 <= d < c && 0 <= i < v@.len() ==> (#[trigger] r@[d]@[i]) == v@[i]@[d],
        decreases len - c,
    {
        let mut col: Vec<T> = Vec::new();
        let mut i: usize = 0;
        while i < v.len()
            invariant
                i <= v@.len(),
                c < len,
                forall|j: int| 0 <= j < v@.len() ==> (#[trigger] v@[j])@.len() >= len,
                col@.len() == i,
                forall|j: int| 0 <= j < i ==> (#[trigger] col@[j]) == v@[j]@[c as int],
            decreases v@.len() - i,
        {
            col.push(v[i][c]);
            i += 1;
        }
        r.push(col);
        c += 1;
    }
    r
}

/// Convert a vector into an array of the same length.
pub fn vec2array<T: Copy, const N: usize>(v: Vec<T>) -> (a: [T; N])
    requires
        v@.len() == N,
        N >= 1,
    ensures
        forall|i: int| 0 <= i < N ==> a@[i] == v@[i],
{
    let mut a: [T; N] = [v[0]; N];
    let mut i: usize = 0;
    while i < N
        invariant
            i <= N,
            v@.len() == N,
            forall|j: int| 0 <= j < i ==> a@[j] == v@[j],
        decreases N - i,
    {
        a[i] = v[i];
        i += 1;
    }
    a
}

} // verus!
