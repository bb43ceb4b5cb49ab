//! In-memory molecule model: element symbols plus fixed-point coordinates.

use vstd::prelude::*;

use crate::MAX_ABS_COORD;

verus! {

/// One atom position, each component a fixed-point integer in units of
/// 1e-4 length units (so `x == 10000` means 1.0).
#[derive(Clone, Copy, PartialEq, Eq, Structural, Debug)]
pub struct Coord {
    pub x: i64,
    pub y: i64,
    pub z: i64,
}

/// A coordinate the pipeline accepts: every component small enough that
/// squared distances stay inside `i64`.
pub open spec fn coord_in_range(c: Coord) -> bool {
    &&& -MAX_ABS_COORD <= c.x <= MAX_ABS_COORD
    &&& -MAX_ABS_COORD <= c.y <= MAX_ABS_COORD
    &&& -MAX_ABS_COORD <= c.z <= MAX_ABS_COORD
}

/// Simple molecule structure: one element symbol and one coordinate per
/// atom, in file order; atom ids are 0-based here and 1-based in output.
pub struct XYZMolecule {
    pub natoms: usize,
    pub atoms: Vec<String>,
    pub coords: Vec<Coord>,
    pub q: i32,
    pub info: String,
    pub name: String,
}

impl XYZMolecule {
    /// The molecule invariant: the declared atom count equals the number
    /// of element symbols and the number of coordinates.
    pub open spec fn wf(&self) -> bool {
        &&& self.natoms == self.atoms@.len()
        &&& self.natoms == self.coords@.len()
    }

    /// All coordinates within the fixed-point range the geometry
    /// components require.
    pub open spec fn coords_bounded(&self) -> bool {
        forall|i: int|
            0 <= i < self.coords@.len() ==> coord_in_range(#[trigger] self.coords@[i])
    }

    /// Creating a molecule from its core features. Demands one coordinate
    /// per element symbol; the result then satisfies the invariant.
    pub fn new(atoms: Vec<String>, coords: Vec<Coord>, q: i32) -> (m: XYZMolecule)
        requires
            atoms@.len() == coords@.len(),
        ensures
            m.wf(),
            m.natoms == atoms@.len(),
            m.atoms == atoms,
            m.coords == coords,
            m.q == q,
            m.info@ == Seq::<char>::empty(),
            m.name@ == Seq::<char>::empty(),
    {
        let natoms = atoms.len();
        XYZMolecule { natoms, atoms, coords, q, info: String::new(), name: String::new() }
    }
}

} // verus!
