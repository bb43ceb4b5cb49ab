//! Pair canonicalization and neighbor feature extraction: the geometric
//! descriptors of one candidate atom pair, and the feature table with one
//! row per candidate pair.

use vstd::prelude::*;

use crate::elements::{atomic_number, spec_atomic_number};
use crate::geometry::{distance_matrix, lemma_sq_dist_range, sq_dist};
use crate::molecule::XYZMolecule;
use crate::utils::{argsort, lemma_filter_push, lemma_stable_argsort_props, stable_argsort};
use crate::{N_CUT, SQ_DIST_CUTOFF};

verus! {

/// A candidate pair after canonicalization: 0-based atom ids with the
/// atom of higher atomic number in the `a` role, plus both atomic
/// numbers. Equal atomic numbers keep the lower atom id first.
#[derive(Clone, Copy, PartialEq, Eq, Structural, Debug)]
pub struct CanonicalPair {
    pub a: usize,
    pub b: usize,
    pub za: usize,
    pub zb: usize,
}

/// The canonical role assignment of a pair: higher atomic number first;
/// on a tie the lower atom id first. Independent of argument order.
pub open spec fn spec_canonical(i: usize, j: usize, zi: usize, zj: usize) -> CanonicalPair {
    if zi > zj {
        CanonicalPair { a: i, b: j, za: zi, zb: zj }
    } else if zj > zi {
        CanonicalPair { a: j, b: i, za: zj, zb: zi }
    } else if i <= j {
        CanonicalPair { a: i, b: j, za: zi, zb: zj }
    } else {
        CanonicalPair { a: j, b: i, za: zj, zb: zi }
    }
}

/// Order each candidate pair deterministically: the atom with the higher
/// atomic number takes the first ("a") role; unknown elements carry the
/// sentinel number 0 and so sort last.
pub fn canonical_pair(i: usize, j: usize, zi: usize, zj: usize) -> (c: CanonicalPair)
    ensures
        c == spec_canonical(i, j, zi, zj),
{
    if zi > zj {
        CanonicalPair { a: i, b: j, za: zi, zb: zj }
    } else if zj > zi {
        CanonicalPair { a: j, b: i, za: zj, zb: zi }
    } else if i <= j {
        CanonicalPair { a: i, b: j, za: zi, zb: zj }
    } else {
        CanonicalPair { a: j, b: i, za: zj, zb: zi }
    }
}

/// Canonicalization is idempotent: canonicalizing an already-canonical
/// pair returns it unchanged.
pub proof fn lemma_canonical_idempotent(i: usize, j: usize, zi: usize, zj: usize)
    ensures
        spec_canonical(
            spec_canonical(i, j, zi, zj).a,
            spec_canonical(i, j, zi, zj).b,
            spec_canonical(i, j, zi, zj).za,
            spec_canonical(i, j, zi, zj).zb,
        ) == spec_canonical(i, j, zi, zj),
{
}

/// Canonicalization does not depend on the order in which the two atoms
/// of a pair are presented.
pub proof fn lemma_canonical_symmetric(i: usize, j: usize, zi: usize, zj: usize)
    ensures
        spec_canonical(i, j, zi, zj) == spec_canonical(j, i, zj, zi),
{
}

/// The predicate selecting indices that are neither pair atom.
pub open spec fn non_pair_pred(a: usize, b: usize) -> spec_fn(usize) -> bool {
    |x: usize| x != a && x != b
}

/// The nearest non-pair neighbors of a pair atom, 0-based atom indices:
/// all indices of the atom's distance row in ascending stable order,
/// with both pair atoms removed, cut to at most `N_CUT` entries.
pub open spec fn spec_neighbor_indices(row: Seq<i64>, a: usize, b: usize) -> Seq<usize> {
    let sorted = stable_argsort(row).filter(non_pair_pred(a, b));
    if sorted.len() <= N_CUT {
        sorted
    } else {
        sorted.take(N_CUT as int)
    }
}

/// In a duplicate-free index list, removing the two distinct pair atoms
/// removes exactly one entry for each of them that is present.
proof fn lemma_filter_two_removed(s: Seq<usize>, a: usize, b: usize)
    requires
        s.no_duplicates(),
        a != b,
    ensures
        s.filter(non_pair_pred(a, b)).len() == s.len() - (if s.contains(a) {
            1int
        } else {
            0int
        }) - (if s.contains(b) {
            1int
        } else {
            0int
        }),
    decreases s.len(),
{
    let pred = non_pair_pred(a, b);
    reveal(Seq::filter);
    if s.len() == 0 {
        assert(!s.contains(a));
        assert(!s.contains(b));
    } else {
        let rest = s.drop_last();
        let x = s.last();
        assert(rest.no_duplicates());
        lemma_filter_two_removed(rest, a, b);
        // how `contains` relates between the list and its prefix
        assert forall|y: usize| rest.contains(y) implies s.contains(y) by {
            let w = choose|w: int| 0 <= w < rest.len() && rest[w] == y;
            assert(s[w] == y);
        }
        if x == a {
            assert(!rest.contains(a));
            assert(s.contains(a)) by {
                assert(s[s.len() - 1] == a);
            }
            assert(s.contains(b) <==> rest.contains(b)) by {
                if s.contains(b) {
                    let w = choose|w: int| 0 <= w < s.len() && s[w] == b;
                    assert(w < s.len() - 1);
                    assert(rest[w] == b);
                }
            }
        } else if x == b {
            assert(!rest.contains(b));
            assert(s.contains(b)) by {
                assert(s[s.len() - 1] == b);
            }
            assert(s.contains(a) <==> rest.contains(a)) by {
                if s.contains(a) {
                    let w = choose|w: int| 0 <= w < s.len() && s[w] == a;
                    assert(w < s.len() - 1);
                    assert(rest[w] == a);
                }
            }
        } else {
            assert(s.contains(a) <==> rest.contains(a)) by {
                if s.contains(a) {
                    let w = choose|w: int| 0 <= w < s.len() && s[w] == a;
                    assert(w < s.len() - 1);
                    assert(rest[w] == a);
                }
            }
            assert(s.contains(b) <==> rest.contains(b)) by {
                if s.contains(b) {
                    let w = choose|w: int| 0 <= w < s.len() && s[w] == b;
                    assert(w < s.len() - 1);
                    assert(rest[w] == b);
                }
            }
        }
    }
}

/// For a canonical pair `(a, b)`, list the nearest non-pair neighbors of
/// the pair atom whose distance row is given: walk the row's ascending
/// stable ordering, skip both pair atoms, keep the first `N_CUT` indices.
/// Never returns a pair atom; returns exactly `min(N_CUT, natoms - 2)`
/// neighbors, fewer than `N_CUT` only when the molecule has fewer
/// eligible atoms.
pub fn pair_neighbors(row: &Vec<i64>, a: usize, b: usize) -> (r: Vec<usize>)
    requires
        a < row@.len(),
        b < row@.len(),
        a != b,
    ensures
        r@ == spec_neighbor_indices(row@, a, b),
        forall|k: int|
            0 <= k < r@.len() ==> (#[trigger] r@[k]) != a && r@[k] != b && r@[k] < row@.len(),
        r@.len() == if row@.len() - 2 <= N_CUT {
            row@.len() - 2
        } else {
            N_CUT as int
        },
{
    let n = row.len();
    let order = argsort(row);
    proof {
        lemma_stable_argsort_props(row@);
        lemma_filter_two_removed(stable_argsort(row@), a, b);
    }
    let ghost full = stable_argsort(row@).filter(non_pair_pred(a, b));
    let mut r: Vec<usize> = Vec::new();
    let mut t: usize = 0;
    while t < n && r.len() < N_CUT
        invariant
            t <= order@.len(),
            n == row@.len(),
            order@ == stable_argsort(row@),
            order@.len() == row@.len(),
            forall|k: int| 0 <= k < order@.len() ==> (#[trigger] order@[k]) < row@.len(),
            r@ == order@.take(t as int).filter(non_pair_pred(a, b)),
            r@.len() <= N_CUT,
            forall|k: int|
                0 <= k < r@.len() ==> (#[trigger] r@[k]) != a && r@[k] != b && r@[k] < row@.len(),
        decreases order@.len() - t,
    {
        let x = order[t];
        proof {
            assert(order@.take(t + 1) =~= order@.take(t as int).push(order@[t as int]));
            lemma_filter_push(order@.take(t as int), non_pair_pred(a, b), order@[t as int]);
        }
        if x != a && x != b {
            r.push(x);
        }
        t += 1;
    }
    proof {
        let sorted = stable_argsort(row@);
        if t == order@.len() {
            assert(order@.take(t as int) =~= sorted);
            assert(full.len() <= N_CUT);
        } else {
            // stopped with `N_CUT` neighbors in hand: the prefix filter is a
            // prefix of the full filter, so the cut keeps exactly it
            assert(r@.len() == N_CUT);
            assert(sorted =~= order@.take(t as int) + sorted.skip(t as int));
            Seq::<usize>::filter_distributes_over_add(
                sorted.take(t as int),
                sorted.skip(t as int),
                non_pair_pred(a, b),
            );
            assert(full =~= r@ + sorted.skip(t as int).filter(non_pair_pred(a, b)));
            assert(full.take(N_CUT as int) =~= r@);
        }
        assert(r@ == spec_neighbor_indices(row@, a, b));
    }
    r
}

} // verus!

use vstd::string::StringExecFns;

verus! {

/// One neighbor's contribution to a feature row: its atomic number, its
/// squared distance to the owning pair atom, and its squared distance to
/// the other pair atom.
#[derive(Clone, Copy, PartialEq, Eq, Structural, Debug)]
pub struct NeighborFeature {
    pub z: usize,
    pub sq_dist_p: i64,
    pub sq_dist_q: i64,
}

/// One feature table row: canonical 1-based atom ids, net charge, the
/// pair's atomic numbers and squared distance, then the neighbor
/// features of the `a` atom and of the `b` atom, each padded with zero
/// entries to exactly `N_CUT` neighbors so every row has the same shape.
pub struct FeatureRow {
    pub id1: usize,
    pub id2: usize,
    pub q: i32,
    pub za: usize,
    pub zb: usize,
    pub sq_dist_ab: i64,
    pub neigh_a: Vec<NeighborFeature>,
    pub neigh_b: Vec<NeighborFeature>,
}

/// The mathematical value of a feature row.
#[verifier::ext_equal]
pub struct FeatureRowModel {
    pub id1: usize,
    pub id2: usize,
    pub q: i32,
    pub za: usize,
    pub zb: usize,
    pub sq_dist_ab: i64,
    pub neigh_a: Seq<NeighborFeature>,
    pub neigh_b: Seq<NeighborFeature>,
}

impl View for FeatureRow {
    type V = FeatureRowModel;

    open spec fn view(&self) -> FeatureRowModel {
        FeatureRowModel {
            id1: self.id1,
            id2: self.id2,
            q: self.q,
            za: self.za,
            zb: self.zb,
            sq_dist_ab: self.sq_dist_ab,
            neigh_a: self.neigh_a@,
            neigh_b: self.neigh_b@,
        }
    }
}

/// Atomic number of atom `x` of the molecule.
pub open spec fn spec_az(mol: XYZMolecule, x: int) -> usize {
    spec_atomic_number(mol.atoms@[x]@) as usize
}

/// Squared distance between atoms `p` and `x` of the molecule.
pub open spec fn spec_sqd(mol: XYZMolecule, p: int, x: int) -> i64 {
    sq_dist(mol.coords@[p], mol.coords@[x]) as i64
}

/// Atom `p`'s full distance row.
pub open spec fn spec_dm_row(mol: XYZMolecule, p: int) -> Seq<i64> {
    Seq::new(mol.coords@.len(), |x: int| spec_sqd(mol, p, x))
}

/// The feature entry of neighbor `x`, owned by pair atom `p`, with `o`
/// the other pair atom.
pub open spec fn spec_neighbor_feature(mol: XYZMolecule, p: int, o: int, x: usize)
    -> NeighborFeature {
    NeighborFeature {
        z: spec_az(mol, x as int),
        sq_dist_p: spec_sqd(mol, p, x as int),
        sq_dist_q: spec_sqd(mol, o, x as int),
    }
}

/// The sentinel entry standing for a missing neighbor.
pub open spec fn zero_neighbor() -> NeighborFeature {
    NeighborFeature { z: 0, sq_dist_p: 0, sq_dist_q: 0 }
}

/// Pad a neighbor list with sentinel entries to exactly `N_CUT`, so all
/// rows keep one shape also in molecules with fewer eligible atoms.
pub open spec fn pad_neighbors(s: Seq<NeighborFeature>) -> Seq<NeighborFeature> {
    if s.len() >= N_CUT {
        s
    } else {
        s + Seq::new((N_CUT - s.len()) as nat, |k: int| zero_neighbor())
    }
}

/// The padded neighbor features of pair atom `p`, with `o` the other
/// pair atom.
pub open spec fn spec_neigh_feats(mol: XYZMolecule, p: usize, o: usize) -> Seq<NeighborFeature> {
    pad_neighbors(
        spec_neighbor_indices(spec_dm_row(mol, p as int), p, o).map_values(
            |x: usize| spec_neighbor_feature(mol, p as int, o as int, x),
        ),
    )
}

/// The feature row of candidate pair `(i, j)`.
pub open spec fn spec_feature_row(mol: XYZMolecule, i: usize, j: usize) -> FeatureRowModel {
    let c = spec_canonical(i, j, spec_az(mol, i as int), spec_az(mol, j as int));
    FeatureRowModel {
        id1: (c.a + 1) as usize,
        id2: (c.b + 1) as usize,
        q: mol.q,
        za: c.za,
        zb: c.zb,
        sq_dist_ab: spec_sqd(mol, c.a as int, c.b as int),
        neigh_a: spec_neigh_feats(mol, c.a, c.b),
        neigh_b: spec_neigh_feats(mol, c.b, c.a),
    }
}

/// The pairs `(i, i+1) .. (i, n-1)`, in ascending `j` order.
pub open spec fn spec_pair_block(n: nat, i: nat) -> Seq<(usize, usize)> {
    Seq::new((n - i - 1) as nat, |k: int| (i as usize, (i + 1 + k) as usize))
}

/// All pairs whose first atom is below `i`, in generation order: `i`
/// ascending, `j` ascending within each block.
pub open spec fn spec_pairs_upto(n: nat, i: nat) -> Seq<(usize, usize)>
    decreases i,
{
    if i == 0 {
        Seq::empty()
    } else {
        spec_pairs_upto(n, (i - 1) as nat) + spec_pair_block(n, (i - 1) as nat)
    }
}

/// The candidate-pair cutoff test: squared distance within the cutoff.
pub open spec fn candidate_pred(mol: XYZMolecule) -> spec_fn((usize, usize)) -> bool {
    |p: (usize, usize)|
        sq_dist(mol.coords@[p.0 as int], mol.coords@[p.1 as int]) <= SQ_DIST_CUTOFF as int
}

/// The candidate pairs of a molecule: every unordered pair within the
/// distance cutoff, once, in generation order.
pub open spec fn spec_candidate_pairs(mol: XYZMolecule) -> Seq<(usize, usize)> {
    spec_pairs_upto(mol.coords@.len(), mol.coords@.len()).filter(candidate_pred(mol))
}

/// The mathematical values of a row list.
pub open spec fn row_models(rows: Seq<FeatureRow>) -> Seq<FeatureRowModel> {
    rows.map_values(|r: FeatureRow| r@)
}

/// The full feature table contents: one row per candidate pair.
pub open spec fn spec_feature_rows(mol: XYZMolecule) -> Seq<FeatureRowModel> {
    spec_candidate_pairs(mol).map_values(|p: (usize, usize)| spec_feature_row(mol, p.0, p.1))
}

/// The fixed column header of the feature table.
pub open spec fn spec_header() -> Seq<Seq<char>> {
    seq![
        "id1"@, "id2"@, "q"@, "ata"@, "atb"@, "distab"@,
        "ata1"@, "dista1"@, "dista1b"@,
        "ata2"@, "dista2"@, "dista2b"@,
        "ata3"@, "dista3"@, "dista3b"@,
        "atb1"@, "distb1"@, "distb1a"@,
        "atb2"@, "distb2"@, "distb2a"@,
        "atb3"@, "distb3"@, "distb3a"@,
    ]
}

/// The feature table: a fixed named-column header and one row per
/// candidate pair, every row of the same width as the header.
pub struct FeatureTable {
    pub header: Vec<String>,
    pub rows: Vec<FeatureRow>,
}

/// The column labels, in the exact order the rows are flattened in.
pub fn header() -> (h: Vec<String>)
    ensures
        h@.len() == 24,
        h@.map_values(|s: String| s@) == spec_header(),
{
    let mut h: Vec<String> = Vec::new();
    h.push(String::from_str("id1"));
    h.push(String::from_str("id2"));
    h.push(String::from_str("q"));
    h.push(String::from_str("ata"));
    h.push(String::from_str("atb"));
    h.push(String::from_str("distab"));
    h.push(String::from_str("ata1"));
    h.push(String::from_str("dista1"));
    h.push(String::from_str("dista1b"));
    h.push(String::from_str("ata2"));
    h.push(String::from_str("dista2"));
    h.push(String::from_str("dista2b"));
    h.push(String::from_str("ata3"));
    h.push(String::from_str("dista3"));
    h.push(String::from_str("dista3b"));
    h.push(String::from_str("atb1"));
    h.push(String::from_str("distb1"));
    h.push(String::from_str("distb1a"));
    h.push(String::from_str("atb2"));
    h.push(String::from_str("distb2"));
    h.push(String::from_str("distb2a"));
    h.push(String::from_str("atb3"));
    h.push(String::from_str("distb3"));
    h.push(String::from_str("distb3a"));
    proof {
        assert(h@.map_values(|s: String| s@) =~= spec_header());
    }
    h
}

/// What one distance-matrix argument must look like.
pub open spec fn dm_matches(mol: XYZMolecule, dm: Seq<Vec<i64>>) -> bool {
    &&& dm.len() == mol.coords@.len()
    &&& forall|p: int| 0 <= p < dm.len() ==> (#[trigger] dm[p])@.len() == mol.coords@.len()
    &&& forall|p: int, x: int|
        0 <= p < dm.len() && 0 <= x < dm.len() ==> (#[trigger] dm[p]@[x]) == spec_sqd(mol, p, x)
}

/// Build the neighbor features of pair atom `p` (other pair atom `o`).
fn neighbor_feats(mol: &XYZMolecule, dm: &Vec<Vec<i64>>, p: usize, o: usize) -> (nf: Vec<
    NeighborFeature,
>)
    requires
        mol.wf(),
        dm_matches(*mol, dm@),
        p < mol.natoms,
        o < mol.natoms,
        p != o,
    ensures
        nf@ == spec_neigh_feats(*mol, p, o),
{
    proof {
        assert(dm@[p as int]@ =~= spec_dm_row(*mol, p as int));
    }
    let idx = pair_neighbors(&dm[p], p, o);
    let mut nf: Vec<NeighborFeature> = Vec::new();
    let mut k: usize = 0;
    while k < idx.len()
        invariant
            k <= idx@.len(),
            mol.wf(),
            dm_matches(*mol, dm@),
            p < mol.natoms,
            o < mol.natoms,
            forall|l: int|
                0 <= l < idx@.len() ==> (#[trigger] idx@[l]) < mol.coords@.len(),
            nf@.len() == k,
            forall|l: int|
                0 <= l < k ==> (#[trigger] nf@[l]) == spec_neighbor_feature(
                    *mol,
                    p as int,
                    o as int,
                    idx@[l],
                ),
        decreases idx@.len() - k,
    {
        let x = idx[k];
        let z = atomic_number(mol.atoms[x].as_str());
        nf.push(NeighborFeature { z, sq_dist_p: dm[p][x], sq_dist_q: dm[o][x] });
        k += 1;
    }
    let ghost base = nf@;
    proof {
        assert(base =~= spec_neighbor_indices(spec_dm_row(*mol, p as int), p, o).map_values(
            |x: usize| spec_neighbor_feature(*mol, p as int, o as int, x),
        ));
    }
    while nf.len() < N_CUT
        invariant
            base.len() <= nf@.len(),
            nf@.len() <= N_CUT || nf@.len() == base.len(),
            forall|l: int| 0 <= l < base.len() ==> (#[trigger] nf@[l]) == base[l],
            forall|l: int| base.len() <= l < nf@.len() ==> (#[trigger] nf@[l]) == zero_neighbor(),
        decreases N_CUT - nf@.len(),
    {
        nf.push(NeighborFeature { z: 0, sq_dist_p: 0, sq_dist_q: 0 });
    }
    proof {
        assert(nf@ =~= pad_neighbors(base));
    }
    nf
}

/// Build the feature row of candidate pair `(i, j)`.
fn build_row(mol: &XYZMolecule, dm: &Vec<Vec<i64>>, i: usize, j: usize) -> (r: FeatureRow)
    requires
        mol.wf(),
        dm_matches(*mol, dm@),
        i < j,
        j < mol.natoms,
    ensures
        r@ == spec_feature_row(*mol, i, j),
{
    let zi = atomic_number(mol.atoms[i].as_str());
    let zj = atomic_number(mol.atoms[j].as_str());
    let c = canonical_pair(i, j, zi, zj);
    let neigh_a = neighbor_feats(mol, dm, c.a, c.b);
    let neigh_b = neighbor_feats(mol, dm, c.b, c.a);
    let r = FeatureRow {
        id1: c.a + 1,
        id2: c.b + 1,
        q: mol.q,
        za: c.za,
        zb: c.zb,
        sq_dist_ab: dm[c.a][c.b],
        neigh_a,
        neigh_b,
    };
    proof {
        assert(r@ =~= spec_feature_row(*mol, i, j));
    }
    r
}

/// Assemble one feature row per candidate pair, in generation order,
/// under the fixed 24-column header. The row count equals the number of
/// atom pairs within the distance cutoff, and every row has exactly the
/// header's width.
pub fn create_dataframe(mol: &XYZMolecule) -> (t: FeatureTable)
    requires
        mol.wf(),
        mol.coords_bounded(),
    ensures
        row_models(t.rows@) == spec_feature_rows(*mol),
        t.rows@.len() == spec_candidate_pairs(*mol).len(),
        t.header@.len() == 24,
        t.header@.map_values(|s: String| s@) == spec_header(),
        forall|w: int|
            0 <= w < t.rows@.len() ==> spec_flat_row(#[trigger] row_models(t.rows@)[w]).len()
                == t.header@.len(),
{
    let n = mol.natoms;
    let dm = distance_matrix(&mol.coords);
    proof {
        assert(dm_matches(*mol, dm@));
    }
    let ghost pred = candidate_pred(*mol);
    let ghost rowfn = |p: (usize, usize)| spec_feature_row(*mol, p.0, p.1);
    let mut rows: Vec<FeatureRow> = Vec::new();
    let mut i: usize = 0;
    while i < n
        invariant
            i <= n,
            n == mol.natoms,
            mol.wf(),
            mol.coords_bounded(),
            dm_matches(*mol, dm@),
            row_models(rows@) == spec_pairs_upto(n as nat, i as nat).filter(pred).map_values(
                rowfn,
            ),
            pred == candidate_pred(*mol),
            rowfn == (|p: (usize, usize)| spec_feature_row(*mol, p.0, p.1)),
        decreases n - i,
    {
        let mut j: usize = i + 1;
        while j < n
            invariant
                i < j || j == i + 1,
                i + 1 <= j <= n,
                i < n,
                n == mol.natoms,
                mol.wf(),
                mol.coords_bounded(),
                dm_matches(*mol, dm@),
                row_models(rows@) == (spec_pairs_upto(n as nat, i as nat) + spec_pair_block(
                    n as nat,
                    i as nat,
                ).take(j - i - 1)).filter(pred).map_values(rowfn),
                pred == candidate_pred(*mol),
                rowfn == (|p: (usize, usize)| spec_feature_row(*mol, p.0, p.1)),
            decreases n - j,
        {
            let ghost sofar = spec_pairs_upto(n as nat, i as nat) + spec_pair_block(
                n as nat,
                i as nat,
            ).take(j - i - 1);
            proof {
                assert(spec_pair_block(n as nat, i as nat)[j - i - 1] == (i, j));
                assert(spec_pair_block(n as nat, i as nat).take(j - i) =~= spec_pair_block(
                    n as nat,
                    i as nat,
                ).take(j - i - 1).push((i, j)));
                assert((spec_pairs_upto(n as nat, i as nat) + spec_pair_block(n as nat, i as nat)
                    .take(j - i)) =~= sofar.push((i, j)));
                lemma_filter_push(sofar, pred, (i, j));
                // the cell is the squared distance, exactly: it fits i64
                lemma_sq_dist_range(mol.coords@[i as int], mol.coords@[j as int]);
                assert(dm@[i as int]@[j as int] == spec_sqd(*mol, i as int, j as int));
            }
            if dm[i][j] <= SQ_DIST_CUTOFF {
                let r = build_row(mol, &dm, i, j);
                let ghost prev = rows@;
                rows.push(r);
                proof {
                    assert(pred((i, j)));
                    assert(rowfn((i, j)) == spec_feature_row(*mol, i, j));
                    assert(row_models(rows@) =~= row_models(prev).push(r@));
                    assert(sofar.push((i, j)).filter(pred) =~= sofar.filter(pred).push((i, j)));
                    assert(sofar.filter(pred).push((i, j)).map_values(rowfn) =~= sofar.filter(
                        pred,
                    ).map_values(rowfn).push(rowfn((i, j))));
                    assert(row_models(rows@) =~= sofar.push((i, j)).filter(pred).map_values(
                        rowfn,
                    ));
                }
            } else {
                proof {
                    assert(!pred((i, j)));
                    assert(sofar.push((i, j)).filter(pred) =~= sofar.filter(pred));
                }
            }
            j += 1;
        }
        proof {
            if i < n {
                assert(spec_pair_block(n as nat, i as nat).take(n - i - 1) =~= spec_pair_block(
                    n as nat,
                    i as nat,
                ));
                assert(spec_pairs_upto(n as nat, (i + 1) as nat) =~= spec_pairs_upto(
                    n as nat,
                    i as nat,
                ) + spec_pair_block(n as nat, i as nat));
            }
        }
        i += 1;
    }
    proof {
        assert(mol.coords@.len() == n as nat);
        assert(row_models(rows@) == spec_feature_rows(*mol));
        assert forall|w: int|
            0 <= w < rows@.len() implies spec_flat_row(#[trigger] row_models(rows@)[w]).len()
            == 24 by {
            let p = spec_candidate_pairs(*mol)[w];
            lemma_row_width(*mol, p.0, p.1);
        }
    }
    FeatureTable { header: header(), rows }
}

} // verus!

verus! {

/// The three numeric columns one neighbor entry contributes.
pub open spec fn spec_flat_neighbor(f: NeighborFeature) -> Seq<i64> {
    seq![f.z as i64, f.sq_dist_p, f.sq_dist_q]
}

/// The columns of a whole neighbor list, in order.
pub open spec fn spec_flat_neighbors(s: Seq<NeighborFeature>) -> Seq<i64>
    decreases s.len(),
{
    if s.len() == 0 {
        Seq::empty()
    } else {
        spec_flat_neighbors(s.drop_last()) + spec_flat_neighbor(s.last())
    }
}

/// One row of the numeric feature matrix, in header column order.
pub open spec fn spec_flat_row(r: FeatureRowModel) -> Seq<i64> {
    seq![r.id1 as i64, r.id2 as i64, r.q as i64, r.za as i64, r.zb as i64, r.sq_dist_ab]
        + spec_flat_neighbors(r.neigh_a) + spec_flat_neighbors(r.neigh_b)
}

/// The whole feature matrix, row-major.
pub open spec fn spec_flat_table(rows: Seq<FeatureRowModel>) -> Seq<i64>
    decreases rows.len(),
{
    if rows.len() == 0 {
        Seq::empty()
    } else {
        spec_flat_table(rows.drop_last()) + spec_flat_row(rows.last())
    }
}

proof fn lemma_flat_neighbors_len(s: Seq<NeighborFeature>)
    ensures
        spec_flat_neighbors(s).len() == 3 * s.len(),
    decreases s.len(),
{
    if s.len() > 0 {
        lemma_flat_neighbors_len(s.drop_last());
    }
}

/// Every feature row flattens to exactly the header's 24 columns: the
/// row count of the numeric matrix is the candidate-pair count and its
/// shape is uniform.
pub proof fn lemma_row_width(mol: XYZMolecule, i: usize, j: usize)
    ensures
        spec_flat_row(spec_feature_row(mol, i, j)).len() == 24,
{
    let r = spec_feature_row(mol, i, j);
    lemma_flat_neighbors_len(r.neigh_a);
    lemma_flat_neighbors_len(r.neigh_b);
}

fn flat_push(v: &mut Vec<i64>, r: &FeatureRow)
    ensures
        final(v)@ == old(v)@ + spec_flat_row(r@),
{
    v.push(r.id1 as i64);
    v.push(r.id2 as i64);
    v.push(r.q as i64);
    v.push(r.za as i64);
    v.push(r.zb as i64);
    v.push(r.sq_dist_ab);
    let ghost head = old(v)@ + seq![
        r.id1 as i64,
        r.id2 as i64,
        r.q as i64,
        r.za as i64,
        r.zb as i64,
        r.sq_dist_ab,
    ];
    proof {
        assert(v@ =~= head);
    }
    let mut k: usize = 0;
    while k < r.neigh_a.len()
        invariant
            k <= r.neigh_a@.len(),
            v@ == head + spec_flat_neighbors(r.neigh_a@.take(k as int)),
        decreases r.neigh_a@.len() - k,
    {
        let f = r.neigh_a[k];
        v.push(f.z as i64);
        v.push(f.sq_dist_p);
        v.push(f.sq_dist_q);
        proof {
            assert(r.neigh_a@.take(k + 1).drop_last() =~= r.neigh_a@.take(k as int));
            assert(r.neigh_a@.take(k + 1).last() == r.neigh_a@[k as int]);
            assert(v@ =~= head + spec_flat_neighbors(r.neigh_a@.take(k + 1)));
        }
        k += 1;
    }
    proof {
        assert(r.neigh_a@.take(r.neigh_a@.len() as int) =~= r.neigh_a@);
    }
    let ghost mid = head + spec_flat_neighbors(r.neigh_a@);
    let mut k: usize = 0;
    while k < r.neigh_b.len()
        invariant
            k <= r.neigh_b@.len(),
            v@ == mid + spec_flat_neighbors(r.neigh_b@.take(k as int)),
        decreases r.neigh_b@.len() - k,
    {
        let f = r.neigh_b[k];
        v.push(f.z as i64);
        v.push(f.sq_dist_p);
        v.push(f.sq_dist_q);
        proof {
            assert(r.neigh_b@.take(k + 1).drop_last() =~= r.neigh_b@.take(k as int));
            assert(r.neigh_b@.take(k + 1).last() == r.neigh_b@[k as int]);
            assert(v@ =~= mid + spec_flat_neighbors(r.neigh_b@.take(k + 1)));
        }
        k += 1;
    }
    proof {
        assert(r.neigh_b@.take(r.neigh_b@.len() as int) =~= r.neigh_b@);
        assert(v@ =~= old(v)@ + spec_flat_row(r@));
    }
}

/// Flatten the feature table into one row-major numeric vector, in
/// header column order — the exact layout the classifier boundary takes.
pub fn df2vec(t: &FeatureTable) -> (v: Vec<i64>)
    ensures
        v@ == spec_flat_table(row_models(t.rows@)),
{
    let mut v: Vec<i64> = Vec::new();
    let mut k: usize = 0;
    while k < t.rows.len()
        invariant
            k <= t.rows@.len(),
            v@ == spec_flat_table(row_models(t.rows@).take(k as int)),
        decreases t.rows@.len() - k,
    {
        flat_push(&mut v, &t.rows[k]);
        proof {
            assert(row_models(t.rows@).take(k + 1).drop_last() =~= row_models(t.rows@).take(
                k as int,
            ));
            assert(row_models(t.rows@).take(k + 1).last() == t.rows@[k as int]@);
        }
        k += 1;
    }
    proof {
        assert(row_models(t.rows@).take(t.rows@.len() as int) =~= row_models(t.rows@));
    }
    v
}

} // verus!
