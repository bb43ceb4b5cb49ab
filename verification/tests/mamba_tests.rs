use mamba::elements::atomic_number;
use mamba::features::{canonical_pair, create_dataframe, df2vec, header, pair_neighbors};
use mamba::geometry::distance_matrix;
use mamba::molblock::{create_molblock, get_bonds, BondPred};
use mamba::molecule::{Coord, XYZMolecule};
use mamba::parse::mol_from_xyz_string;
use mamba::utils::{argsort, transpose, vec2array};
use mamba::{MambaError, COORD_SCALE};

fn c(x: i64, y: i64, z: i64) -> Coord {
    Coord { x, y, z }
}

// a 2-atom molecule: C at the origin, O one length unit above it
fn co_molecule() -> XYZMolecule {
    XYZMolecule::new(
        vec![String::from("C"), String::from("O")],
        vec![c(0, 0, 0), c(0, 0, COORD_SCALE)],
        0,
    )
}

#[test]
fn test_vec2array() {
    let v: Vec<i32> = vec![0, 1, 2];
    let a: [i32; 3] = vec2array(v);
    assert_eq!(a, [0, 1, 2]);
}

#[test]
fn test_molecule() {
    let atoms: Vec<String> = vec![String::from("C"), String::from("O")];
    let coords = vec![c(0, 0, 0), c(10000, 10000, 10000)];
    let q: i32 = 0;
    let mol = XYZMolecule::new(atoms, coords, q);
    assert_eq!(mol.atoms.len(), 2);
}

#[test]
fn test_argsort() {
    let v: Vec<i64> = vec![-50000, 49000, 11000, -31000, 21000];
    let vi = argsort(&v);
    assert_eq!(vi, vec![0, 3, 2, 4, 1]);
}

#[test]
fn parse_xyz_string() {
    let mol_str = "2

        C          0.00000        0.00000        0.00000
        O          0.00000        0.00000        1.00000";
    let mol = mol_from_xyz_string(mol_str).expect("Failed parsing!");
    assert_eq!(mol.atoms.len(), 2);
    assert_eq!(mol.coords.len(), 2);
    assert_eq!(mol.coords[0], c(0, 0, 0));
    assert_eq!(mol.coords[1], c(0, 0, 10000));
    assert_eq!(mol.natoms, 2);
}

#[test]
fn molecule_invariant_holds_after_parse() {
    let mol = mol_from_xyz_string("1\nwater fragment\nO 0.1 -0.2 0.3\n").unwrap();
    assert_eq!(mol.natoms, 1);
    assert_eq!(mol.atoms.len(), 1);
    assert_eq!(mol.coords.len(), 1);
    assert_eq!(mol.info, "water fragment");
    assert_eq!(mol.q, 0);
}

#[test]
fn parse_count_mismatch_fails() {
    let res = mol_from_xyz_string("3\ninfo\nC 0 0 0\nO 0 0 1\n");
    assert!(matches!(res, Err(MambaError::AtomCountMismatch)));
}

#[test]
fn parse_bad_count_fails() {
    assert!(matches!(mol_from_xyz_string("x\n"), Err(MambaError::ParseError)));
    assert!(matches!(mol_from_xyz_string(""), Err(MambaError::ParseError)));
}

#[test]
fn parse_bad_coordinate_fails() {
    let res = mol_from_xyz_string("1\ninfo\nC 0 0 abc\n");
    assert!(matches!(res, Err(MambaError::ParseError)));
    let res = mol_from_xyz_string("1\ninfo\nC 0 0\n");
    assert!(matches!(res, Err(MambaError::ParseError)));
}

#[test]
fn parse_out_of_range_coordinate_fails() {
    let res = mol_from_xyz_string("1\ninfo\nC 0 0 20000.0\n");
    assert!(matches!(res, Err(MambaError::ParseError)));
}

#[test]
fn parse_exact_values_and_blank_lines() {
    let text = "2\n titled \nC 1.5 -0.25 0.00005\n\nO +0 0. .5\n";
    let mol = mol_from_xyz_string(text).expect("should parse");
    assert_eq!(mol.natoms, 2);
    assert_eq!(mol.coords[0], c(15000, -2500, 0));
    assert_eq!(mol.coords[1], c(0, 0, 5000));
    assert_eq!(mol.info, " titled ");
    assert_eq!(mol.atoms, vec![String::from("C"), String::from("O")]);
}

#[test]
fn parse_crlf_input() {
    let mol = mol_from_xyz_string("2\r\ninfo\r\nC 0 0 0\r\nO 0 0 1\r\n").expect("should parse");
    assert_eq!(mol.natoms, 2);
    assert_eq!(mol.coords[1], c(0, 0, 10000));
}

#[test]
fn distance_matrix_symmetric_zero_diagonal() {
    let coords = vec![c(0, 0, 0), c(0, 0, 10000), c(0, 30000, 0)];
    let dm = distance_matrix(&coords);
    assert_eq!(dm.len(), 3);
    for i in 0..3 {
        assert_eq!(dm[i].len(), 3);
        assert_eq!(dm[i][i], 0);
        for j in 0..3 {
            assert_eq!(dm[i][j], dm[j][i]);
        }
    }
    // squared distances in units of 1e-8 squared length units
    assert_eq!(dm[0][1], 100_000_000);
    assert_eq!(dm[0][2], 900_000_000);
    assert_eq!(dm[1][2], 1_000_000_000);
}

#[test]
fn canonicalization_heavy_first() {
    let p = canonical_pair(0, 1, 6, 8);
    assert_eq!((p.a, p.b, p.za, p.zb), (1, 0, 8, 6));
    let q = canonical_pair(0, 1, 8, 6);
    assert_eq!((q.a, q.b, q.za, q.zb), (0, 1, 8, 6));
}

#[test]
fn canonicalization_idempotent_and_symmetric() {
    let p = canonical_pair(0, 1, 6, 8);
    let again = canonical_pair(p.a, p.b, p.za, p.zb);
    assert_eq!(p, again);
    let swapped = canonical_pair(1, 0, 8, 6);
    assert_eq!(p, swapped);
}

#[test]
fn canonicalization_tie_keeps_lower_id_first() {
    let p = canonical_pair(2, 5, 6, 6);
    assert_eq!((p.a, p.b), (2, 5));
    let q = canonical_pair(5, 2, 6, 6);
    assert_eq!((q.a, q.b), (2, 5));
}

#[test]
fn atomic_number_lookup() {
    assert_eq!(atomic_number("H"), 1);
    assert_eq!(atomic_number("C"), 6);
    assert_eq!(atomic_number("O"), 8);
    assert_eq!(atomic_number("Cl"), 17);
    assert_eq!(atomic_number("Og"), 118);
    // unknown symbols degrade to the sentinel 0
    assert_eq!(atomic_number("Xx"), 0);
    assert_eq!(atomic_number(""), 0);
    assert_eq!(atomic_number("Ccc"), 0);
}

#[test]
fn neighbors_exclude_pair_and_cap_at_three() {
    // five atoms on a line, 0.5 units apart
    let coords = vec![
        c(0, 0, 0),
        c(0, 0, 5000),
        c(0, 0, 10000),
        c(0, 0, 15000),
        c(0, 0, 20000),
    ];
    let dm = distance_matrix(&coords);
    let n = pair_neighbors(&dm[0], 0, 1);
    assert_eq!(n.len(), 3);
    assert!(!n.contains(&0));
    assert!(!n.contains(&1));
    // nearest non-pair atoms of atom 0, by distance
    assert_eq!(n, vec![2, 3, 4]);
}

#[test]
fn neighbors_fewer_when_molecule_is_small() {
    let coords = vec![c(0, 0, 0), c(0, 0, 10000), c(0, 0, 20000)];
    let dm = distance_matrix(&coords);
    let n = pair_neighbors(&dm[0], 0, 1);
    assert_eq!(n, vec![2]);
}

#[test]
fn neighbor_tie_broken_by_atom_index() {
    // atoms 2 and 3 sit at exactly the same distance from atom 0
    let coords = vec![c(0, 0, 0), c(0, 0, 10000), c(10000, 0, 0), c(-10000, 0, 0)];
    let dm = distance_matrix(&coords);
    let n = pair_neighbors(&dm[0], 0, 1);
    assert_eq!(n, vec![2, 3]);
    // the same on every run
    let again = pair_neighbors(&dm[0], 0, 1);
    assert_eq!(n, again);
}

#[test]
fn feature_table_rows_and_header() {
    // three atoms within the cutoff: three candidate pairs
    let mol = XYZMolecule::new(
        vec![String::from("C"), String::from("O"), String::from("H")],
        vec![c(0, 0, 0), c(0, 0, 10000), c(0, 0, 20000)],
        0,
    );
    let t = create_dataframe(&mol);
    assert_eq!(t.rows.len(), 3);
    assert_eq!(t.header.len(), 24);
    let flat = df2vec(&t);
    assert_eq!(flat.len(), 72);
    // first row: pair (C, O) canonicalized to (O, C)
    let row: Vec<i64> = flat[0..24].to_vec();
    assert_eq!(
        row,
        vec![
            2, 1, 0, 8, 6, 100_000_000, // ids, charge, atomic numbers, squared distance
            1, 100_000_000, 400_000_000, // O's one neighbor: H
            0, 0, 0, 0, 0, 0, // padding
            1, 400_000_000, 100_000_000, // C's one neighbor: H
            0, 0, 0, 0, 0, 0, // padding
        ]
    );
}

#[test]
fn feature_header_labels() {
    let h = header();
    let expect = vec![
        "id1", "id2", "q", "ata", "atb", "distab", "ata1", "dista1", "dista1b", "ata2", "dista2",
        "dista2b", "ata3", "dista3", "dista3b", "atb1", "distb1", "distb1a", "atb2", "distb2",
        "distb2a", "atb3", "distb3", "distb3a",
    ];
    let got: Vec<&str> = h.iter().map(|s| s.as_str()).collect();
    assert_eq!(got, expect);
}

#[test]
fn pair_beyond_cutoff_gives_no_rows() {
    // two atoms 5.0 length units apart: no candidate pair
    let mol = XYZMolecule::new(
        vec![String::from("C"), String::from("O")],
        vec![c(0, 0, 0), c(0, 0, 50000)],
        0,
    );
    let t = create_dataframe(&mol);
    assert_eq!(t.rows.len(), 0);
    assert_eq!(t.header.len(), 24);
    assert_eq!(df2vec(&t).len(), 0);
}

#[test]
fn pair_at_exact_cutoff_is_kept() {
    let mol = XYZMolecule::new(
        vec![String::from("C"), String::from("O")],
        vec![c(0, 0, 0), c(0, 0, 30000)],
        0,
    );
    let t = create_dataframe(&mol);
    assert_eq!(t.rows.len(), 1);
}

#[test]
fn get_bonds_counts_positive_predictions() {
    let preds = vec![
        BondPred { id1: 1, id2: 2, order: 1 },
        BondPred { id1: 1, id2: 3, order: 0 },
        BondPred { id1: 2, id2: 3, order: -2 },
        BondPred { id1: 3, id2: 4, order: 3 },
    ];
    assert_eq!(get_bonds(&preds), 2);
}

#[test]
fn molblock_round_trip_two_atoms() {
    let mol = co_molecule();
    let preds = vec![BondPred { id1: 1, id2: 2, order: 1 }];
    let doc = create_molblock(mol, preds).expect("in-range bond");
    let expect = "\nML generated sdf\n\n  2  1  0  0  0  0  0  0  0  0  1 V2000\n    0.0000    0.0000    0.0000 C  0  0  0  0  0\n    0.0000    0.0000    1.0000 O  0  0  0  0  0\n  1  2  1 0  0  0  0  0\n";
    assert_eq!(doc, expect);
    assert!(doc.contains("  2  1"));
    assert!(doc.contains("  1  2  1"));
}

#[test]
fn molblock_all_negative_predictions() {
    let mol = co_molecule();
    let preds = vec![
        BondPred { id1: 1, id2: 2, order: 0 },
        BondPred { id1: 1, id2: 2, order: -1 },
    ];
    let doc = create_molblock(mol, preds).expect("nothing to reject");
    let expect = "\nML generated sdf\n\n  2  0  0  0  0  0  0  0  0  0  1 V2000\n    0.0000    0.0000    0.0000 C  0  0  0  0  0\n    0.0000    0.0000    1.0000 O  0  0  0  0  0\n";
    assert_eq!(doc, expect);
}

#[test]
fn molblock_negative_coordinates_fixed_width() {
    let mol = XYZMolecule::new(
        vec![String::from("N")],
        vec![c(-5000, 123456, -100_000_000)],
        0,
    );
    let doc = create_molblock(mol, vec![]).expect("no bonds");
    let expect = "\nML generated sdf\n\n  1  0  0  0  0  0  0  0  0  0  1 V2000\n   -0.5000   12.3456-10000.0000 N  0  0  0  0  0\n";
    assert_eq!(doc, expect);
}

#[test]
fn molblock_bond_id_out_of_range_fails() {
    let mol = co_molecule();
    let preds = vec![BondPred { id1: 5, id2: 1, order: 1 }];
    let res = create_molblock(mol, preds);
    assert!(matches!(res, Err(MambaError::BondIndexOutOfRange)));
    // a discarded (non-positive) row is not checked
    let mol = co_molecule();
    let preds = vec![BondPred { id1: 99, id2: 1, order: 0 }];
    assert!(create_molblock(mol, preds).is_ok());
}

#[test]
fn molblock_keeps_molecule_name() {
    let mut mol = co_molecule();
    mol.name = String::from("carbon monoxide");
    let doc = create_molblock(mol, vec![]).expect("no bonds");
    assert!(doc.starts_with("carbon monoxide\nML generated sdf\n\n"));
}

#[test]
fn transpose_table() {
    let v = vec![vec![1, 2], vec![3, 4], vec![5, 6]];
    let t = transpose(v);
    assert_eq!(t, vec![vec![1, 3, 5], vec![2, 4, 6]]);
}

#[test]
fn pipeline_from_text_to_document() {
    let text = "2\ngenerated\nC 0 0 0\nO 0 0 1\n";
    let mol = mol_from_xyz_string(text).expect("parses");
    let table = create_dataframe(&mol);
    assert_eq!(table.rows.len(), 1);
    // the single candidate pair, canonicalized: O first
    let r = &table.rows[0];
    assert_eq!((r.id1, r.id2, r.za, r.zb), (2, 1, 8, 6));
    // a predicted order of 1 for that row
    let preds = vec![BondPred { id1: r.id1, id2: r.id2, order: 1 }];
    let doc = create_molblock(mol, preds).expect("in range");
    assert!(doc.contains("  2  1  0  0  0  0  0  0  0  0  1 V2000\n"));
    assert!(doc.contains("  2  1  1 0  0  0  0  0\n"));
}
