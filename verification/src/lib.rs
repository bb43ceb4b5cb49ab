//! Geometric bond-perception core: turns raw atom coordinates into a
//! canonical per-candidate-pair feature table, and turns classifier
//! predictions back into a legacy connection-table document.
//!
//! All geometry is carried in fixed-point integers: coordinates in units
//! of 1e-4 length units (the resolution of the output format), squared
//! distances in units of 1e-8. Comparisons on squared distances order
//! pairs exactly as comparisons on Euclidean distances do, so cutoff
//! filtering and neighbor ranking are exact.

use vstd::prelude::*;

pub mod elements;
pub mod features;
pub mod geometry;
pub mod molblock;
pub mod molecule;
pub mod parse;
pub mod textfmt;
pub mod utils;

verus! {

/// Fixed-point scale: stored coordinate 10000 means 1.0 length units.
pub const COORD_SCALE: i64 = 10000;

/// Largest magnitude a stored coordinate may have (1e4 length units).
/// Keeps squared distances well inside `i64`.
pub const MAX_ABS_COORD: i64 = 100_000_000;

/// Candidate-pair cutoff: squared distance of 3.0 length units,
/// in squared fixed-point units (1e-8 of a squared length unit).
pub const SQ_DIST_CUTOFF: i64 = 900_000_000;

/// Number of nearest non-pair neighbors kept per pair atom.
pub const N_CUT: usize = 3;

/// Everything the core can reject.
#[derive(Debug, Clone, Copy, PartialEq, Eq, Structural)]
pub enum MambaError {
    /// The geometry text does not follow the xyz grammar (bad count line,
    /// malformed or out-of-range numeric field, missing field).
    ParseError,
    /// The geometry text parses, but the declared atom count differs from
    /// the number of atom records.
    AtomCountMismatch,
    /// A predicted bond references an atom id outside `1..=natoms`.
    BondIndexOutOfRange,
}

} // verus!


