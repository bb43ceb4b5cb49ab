//! Bond reconstructor: turn classifier predictions back into the legacy
//! connection-table text document, byte for byte — name line, comment
//! block, counts line, fixed-width atom block, fixed-width bond block.

use vstd::prelude::*;
use vstd::string::StringExecFns;

use crate::molecule::{Coord, XYZMolecule};
use crate::textfmt::{
    format_fixed4, format_i64, format_u64, pad_left, pad_right, pad_to_left, pad_to_right,
    spec_fixed4, spec_idec, spec_udec,
};
use crate::utils::lemma_filter_push;
use crate::MambaError;

verus! {

/// One classifier verdict for one feature row: the 1-based atom ids of
/// the pair and the predicted bond order. An order above zero asserts a
/// bond; non-positive predictions are discarded, not written as
/// zero-order bonds.
#[derive(Clone, Copy, PartialEq, Eq, Structural, Debug)]
pub struct BondPred {
    pub id1: usize,
    pub id2: usize,
    pub order: i64,
}

/// The test keeping predicted-positive rows.
pub open spec fn bond_kept() -> spec_fn(BondPred) -> bool {
    |b: BondPred| b.order > 0
}

/// How many rows of a prediction table assert a bond.
pub open spec fn spec_bond_count(preds: Seq<BondPred>) -> int {
    preds.filter(bond_kept()).len() as int
}

/// Count the predicted bonds: the rows whose order is positive.
pub fn get_bonds(preds: &Vec<BondPred>) -> (n: u32)
    requires
        preds@.len() <= u32::MAX,
    ensures
        n == spec_bond_count(preds@),
{
    let mut n: u32 = 0;
    let mut k: usize = 0;
    while k < preds.len()
        invariant
            k <= preds@.len(),
            preds@.len() <= u32::MAX,
            n == preds@.take(k as int).filter(bond_kept()).len(),
        decreases preds@.len() - k,
    {
        proof {
            assert(preds@.take(k + 1) =~= preds@.take(k as int).push(preds@[k as int]));
            lemma_filter_push(preds@.take(k as int), bond_kept(), preds@[k as int]);
            preds@.take(k + 1).lemma_filter_len(bond_kept());
        }
        if preds[k].order > 0 {
            n = n + 1;
        }
        k += 1;
    }
    proof {
        assert(preds@.take(preds@.len() as int) =~= preds@);
    }
    n
}

/// Every bond row that will be written references real atoms: both of
/// its 1-based ids lie in `1 ..= natoms`.
pub open spec fn spec_bonds_in_range(preds: Seq<BondPred>, natoms: int) -> bool {
    forall|k: int|
        0 <= k < preds.len() ==> ((#[trigger] preds[k]).order > 0 ==> 1 <= preds[k].id1 <= natoms
            && 1 <= preds[k].id2 <= natoms)
}

/// The counts line: atom and bond counts right-justified to width 3,
/// then the fixed legacy tail.
pub open spec fn spec_counts_line(natoms: int, nbonds: int) -> Seq<char> {
    pad_left(spec_udec(natoms), 3) + pad_left(spec_udec(nbonds), 3)
        + "  0  0  0  0  0  0  0  0  1 V2000\n"@
}

/// One atom line: the three coordinates right-justified to width 10 with
/// four decimals, the element symbol left-justified to width 2, and the
/// fixed zero suffix of unused legacy attributes.
pub open spec fn spec_atom_line(sym: Seq<char>, c: Coord) -> Seq<char> {
    pad_left(spec_fixed4(c.x as int), 10) + pad_left(spec_fixed4(c.y as int), 10) + pad_left(
        spec_fixed4(c.z as int),
        10,
    ) + seq![' '] + pad_right(sym, 2) + " 0  0  0  0  0\n"@
}

/// The atom block for the first `k` atoms, in original atom order.
pub open spec fn spec_atom_block_upto(mol: XYZMolecule, k: int) -> Seq<char>
    decreases k,
{
    if k <= 0 {
        Seq::empty()
    } else {
        spec_atom_block_upto(mol, k - 1) + spec_atom_line(
            mol.atoms@[k - 1]@,
            mol.coords@[k - 1],
        )
    }
}

/// One bond line: both atom ids and the bond order right-justified to
/// width 3, and the fixed zero suffix.
pub open spec fn spec_bond_line(b: BondPred) -> Seq<char> {
    pad_left(spec_udec(b.id1 as int), 3) + pad_left(spec_udec(b.id2 as int), 3) + pad_left(
        spec_idec(b.order as int),
        3,
    ) + " 0  0  0  0  0\n"@
}

/// The bond block: one line per kept bond row, in table order.
pub open spec fn spec_bond_block(bonds: Seq<BondPred>) -> Seq<char>
    decreases bonds.len(),
{
    if bonds.len() == 0 {
        Seq::empty()
    } else {
        spec_bond_block(bonds.drop_last()) + spec_bond_line(bonds.last())
    }
}

/// The whole connection-table document of a molecule and its prediction
/// table: name line, fixed comment line, blank line, counts line, atom
/// block, then one bond line per predicted-positive row.
pub open spec fn spec_molblock(mol: XYZMolecule, preds: Seq<BondPred>) -> Seq<char> {
    mol.name@ + "\n"@ + "ML generated sdf\n\n"@ + spec_counts_line(
        mol.natoms as int,
        spec_bond_count(preds),
    ) + spec_atom_block_upto(mol, mol.natoms as int) + spec_bond_block(
        preds.filter(bond_kept()),
    )
}

/// Serialize the molecule and the predicted bonds into the legacy
/// connection-table document. Keeps exactly the rows whose prediction is
/// positive; fails if and only if such a row references an atom id
/// outside `1 ..= natoms`.
#[verifier::rlimit(100)]
pub fn create_molblock(mol: XYZMolecule, preds: Vec<BondPred>) -> (res: Result<
    String,
    MambaError,
>)
    requires
        mol.wf(),
    ensures
        res is Ok <==> spec_bonds_in_range(preds@, mol.natoms as int),
        res matches Ok(s) ==> s@ == spec_molblock(mol, preds@),
        res matches Err(e) ==> e == MambaError::BondIndexOutOfRange,
{
    let natoms = mol.atoms.len();
    // select the predicted-positive rows, validating their atom ids
    let mut kept: Vec<BondPred> = Vec::new();
    let mut k: usize = 0;
    while k < preds.len()
        invariant
            k <= preds@.len(),
            natoms == mol.natoms,
            mol.wf(),
            kept@ == preds@.take(k as int).filter(bond_kept()),
            forall|l: int|
                0 <= l < k ==> ((#[trigger] preds@[l]).order > 0 ==> 1 <= preds@[l].id1 <= natoms
                    && 1 <= preds@[l].id2 <= natoms),
        decreases preds@.len() - k,
    {
        proof {
            assert(preds@.take(k + 1) =~= preds@.take(k as int).push(preds@[k as int]));
            lemma_filter_push(preds@.take(k as int), bond_kept(), preds@[k as int]);
        }
        let b = preds[k];
        if b.order > 0 {
            if b.id1 < 1 || b.id1 > natoms || b.id2 < 1 || b.id2 > natoms {
                proof {
                    assert(!spec_bonds_in_range(preds@, mol.natoms as int)) by {
                        assert(preds@[k as int].order > 0);
                    }
                }
                return Err(MambaError::BondIndexOutOfRange);
            }
            kept.push(b);
        }
        k += 1;
    }
    proof {
        assert(preds@.take(preds@.len() as int) =~= preds@);
    }
    let nbonds = kept.len();

    proof {
        reveal_strlit("\n");
        reveal_strlit("ML generated sdf\n\n");
        reveal_strlit("  0  0  0  0  0  0  0  0  1 V2000\n");
        reveal_strlit(" ");
        reveal_strlit(" 0  0  0  0  0\n");
    }

    // header block: name line, fixed comment line, blank line
    let mut s = String::from_str(mol.name.as_str());
    s.append("\n");
    s.append("ML generated sdf\n\n");

    // counts line
    let na_str = format_u64(natoms as u64);
    let na_pad = pad_to_left(na_str.as_str(), 3);
    s.append(na_pad.as_str());
    let nb_str = format_u64(nbonds as u64);
    let nb_pad = pad_to_left(nb_str.as_str(), 3);
    s.append(nb_pad.as_str());
    s.append("  0  0  0  0  0  0  0  0  1 V2000\n");
    proof {
        assert(s@ =~= mol.name@ + "\n"@ + "ML generated sdf\n\n"@ + spec_counts_line(
            mol.natoms as int,
            spec_bond_count(preds@),
        ));
    }
    let ghost head = s@;

    // atom block, in original atom order
    let mut a: usize = 0;
    while a < natoms
        invariant
            a <= natoms,
            natoms == mol.natoms,
            mol.wf(),
            s@ == head + spec_atom_block_upto(mol, a as int),
        decreases natoms - a,
    {
        let c = mol.coords[a];
        let x_str = format_fixed4(c.x);
        let x_pad = pad_to_left(x_str.as_str(), 10);
        s.append(x_pad.as_str());
        let y_str = format_fixed4(c.y);
        let y_pad = pad_to_left(y_str.as_str(), 10);
        s.append(y_pad.as_str());
        let z_str = format_fixed4(c.z);
        let z_pad = pad_to_left(z_str.as_str(), 10);
        s.append(z_pad.as_str());
        s.append(" ");
        let sym_pad = pad_to_right(mol.atoms[a].as_str(), 2);
        s.append(sym_pad.as_str());
        s.append(" 0  0  0  0  0\n");
        proof {
            reveal_strlit(" ");
            reveal_strlit(" 0  0  0  0  0\n");
            assert(" "@ =~= seq![' ']);
            assert(s@ =~= head + spec_atom_block_upto(mol, a + 1));
        }
        a += 1;
    }
    let ghost mid = s@;

    // bond block, one line per kept row
    let mut t: usize = 0;
    while t < nbonds
        invariant
            t <= nbonds,
            nbonds == kept@.len(),
            s@ == mid + spec_bond_block(kept@.take(t as int)),
        decreases nbonds - t,
    {
        let b = kept[t];
        let i1_str = format_u64(b.id1 as u64);
        let i1_pad = pad_to_left(i1_str.as_str(), 3);
        s.append(i1_pad.as_str());
        let i2_str = format_u64(b.id2 as u64);
        let i2_pad = pad_to_left(i2_str.as_str(), 3);
        s.append(i2_pad.as_str());
        let o_str = format_i64(b.order);
        let o_pad = pad_to_left(o_str.as_str(), 3);
        s.append(o_pad.as_str());
        s.append(" 0  0  0  0  0\n");
        proof {
            reveal_strlit(" 0  0  0  0  0\n");
            assert(kept@.take(t + 1).drop_last() =~= kept@.take(t as int));
            assert(kept@.take(t + 1).last() == kept@[t as int]);
            assert(s@ =~= mid + spec_bond_block(kept@.take(t + 1)));
        }
        t += 1;
    }
    proof {
        assert(kept@.take(kept@.len() as int) =~= kept@);
        assert(s@ =~= spec_molblock(mol, preds@));
    }
    Ok(s)
}

} // verus!
