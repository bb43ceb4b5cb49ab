//! Distance matrix engine: all-pairs squared Euclidean distances over the
//! fixed-point coordinates. Squared distances are exact integers, and
//! every downstream consumer (cutoff test, neighbor ranking) only compares
//! distances, so the ordering is exactly the Euclidean one.

use vstd::prelude::*;

use crate::molecule::{coord_in_range, Coord};

verus! {

/// Squared Euclidean distance between two atom positions, in units of
/// 1e-8 of a squared length unit.
pub open spec fn sq_dist(a: Coord, b: Coord) -> int {
    (a.x - b.x) * (a.x - b.x) + (a.y - b.y) * (a.y - b.y) + (a.z - b.z) * (a.z - b.z)
}

/// The square of a value bounded by `m` is bounded by `m * m`.
proof fn lemma_sq_bound(v: int, m: int)
    by (nonlinear_arith)
    requires
        -m <= v <= m,
        0 <= m,
    ensures
        0 <= v * v <= m * m,
{
}

/// Squared distance is symmetric in its arguments and zero between an
/// atom and itself.
pub proof fn lemma_sq_dist_symm_zero(a: Coord, b: Coord)
    by (nonlinear_arith)
    ensures
        sq_dist(a, b) == sq_dist(b, a),
        sq_dist(a, a) == 0,
        sq_dist(a, b) >= 0,
{
}

/// Squared distance of in-range coordinates fits comfortably in `i64`.
pub proof fn lemma_sq_dist_range(a: Coord, b: Coord)
    requires
        coord_in_range(a),
        coord_in_range(b),
    ensures
        0 <= sq_dist(a, b) <= 120_000_000_000_000_000,
{
    lemma_sq_bound(a.x - b.x, 200_000_000);
    lemma_sq_bound(a.y - b.y, 200_000_000);
    lemma_sq_bound(a.z - b.z, 200_000_000);
}

/// One cell of the distance matrix.
fn sq_dist_exec(a: &Coord, b: &Coord) -> (d: i64)
    requires
        coord_in_range(*a),
        coord_in_range(*b),
    ensures
        d == sq_dist(*a, *b),
{
    let dx = a.x - b.x;
    let dy = a.y - b.y;
    let dz = a.z - b.z;
    proof {
        lemma_sq_bound(dx as int, 200_000_000);
        lemma_sq_bound(dy as int, 200_000_000);
        lemma_sq_bound(dz as int, 200_000_000);
    }
    dx * dx + dy * dy + dz * dz
}

/// Computing the distance matrix for a coordinate list: a square matrix
/// of all pairwise squared distances, symmetric with a zero diagonal.
pub fn distance_matrix(coords: &Vec<Coord>) -> (dm: Vec<Vec<i64>>)
    requires
        forall|i: int| 0 <= i < coords@.len() ==> coord_in_range(#[trigger] coords@[i]),
    ensures
        dm@.len() == coords@.len(),
        forall|i: int| 0 <= i < dm@.len() ==> (#[trigger] dm@[i])@.len() == coords@.len(),
        forall|i: int, j: int|
            0 <= i < dm@.len() && 0 <= j < dm@.len() ==> (#[trigger] dm@[i]@[j]) == sq_dist(
                coords@[i],
                coords@[j],
            ),
        forall|i: int, j: int|
            0 <= i < dm@.len() && 0 <= j < dm@.len() ==> dm@[i]@[j] == dm@[j]@[i],
        forall|i: int| 0 <= i < dm@.len() ==> dm@[i]@[i] == 0,
{
    let n = coords.len();
    let mut dm: Vec<Vec<i64>> = Vec::new();
    let mut i: usize = 0;
    while i < n
        invariant
            i <= n,
            n == coords@.len(),
            forall|k: int| 0 <= k < coords@.len() ==> coord_in_range(#[trigger] coords@[k]),
            dm@.len() == i,
            forall|k: int| 0 <= k < i ==> (#[trigger] dm@[k])@.len() == n,
            forall|k: int, l: int|
                0 <= k < i && 0 <= l < n ==> (#[trigger] dm@[k]@[l]) == sq_dist(
                    coords@[k],
                    coords@[l],
                ),
        decreases n - i,
    {
        let mut row: Vec<i64> = Vec::new();
        let mut j: usize = 0;
        while j < n
            invariant
                j <= n,
                i < n,
                n == coords@.len(),
                forall|k: int| 0 <= k < coords@.len() ==> coord_in_range(#[trigger] coords@[k]),
                row@.len() == j,
                forall|l: int|
                    0 <= l < j ==> (#[trigger] row@[l]) == sq_dist(coords@[i as int], coords@[l]),
            decreases n - j,
        {
            let d = sq_dist_exec(&coords[i], &coords[j]);
            row.push(d);
            j += 1;
        }
        dm.push(row);
        i += 1;
    }
    proof {
        assert forall|i: int, j: int|
            0 <= i < dm@.len() && 0 <= j < dm@.len() implies dm@[i]@[j] == dm@[j]@[i] by {
            lemma_sq_dist_symm_zero(coords@[i], coords@[j]);
        }
        assert forall|i: int| 0 <= i < dm@.len() implies dm@[i]@[i] == 0 by {
            lemma_sq_dist_symm_zero(coords@[i], coords@[i]);
        }
    }
    dm
}

} // verus!
