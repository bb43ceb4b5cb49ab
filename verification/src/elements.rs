//! Element symbol to atomic number: a fixed lookup table in periodic
//! table order, 1-indexed by atomic number. An unknown symbol maps to the
//! sentinel 0, which canonicalizes as lighter than every real element.

use vstd::prelude::*;
use vstd::string::StrSliceExecFns;

verus! {

/// Atomic number of a one-character element symbol (0 if unknown).
pub open spec fn spec_atomic_number_1(c: char) -> nat {
    match c {
        'H' => 1nat,
        'B' => 5nat,
        'C' => 6nat,
        'N' => 7nat,
        'O' => 8nat,
        'F' => 9nat,
        'P' => 15nat,
        'S' => 16nat,
        'K' => 19nat,
        'V' => 23nat,
        'Y' => 39nat,
        'I' => 53nat,
        'W' => 74nat,
        'U' => 92nat,
        _ => 0nat,
    }
}

/// Atomic number of a two-character element symbol (0 if unknown).
pub open spec fn spec_atomic_number_2(c0: char, c1: char) -> nat {
    match c0 {
        'H' => match c1 {
            'e' => 2nat,  // He
            'o' => 67nat,  // Ho
            'f' => 72nat,  // Hf
            'g' => 80nat,  // Hg
            's' => 108nat,  // Hs
            _ => 0nat,
        },
        'L' => match c1 {
            'i' => 3nat,  // Li
            'a' => 57nat,  // La
            'u' => 71nat,  // Lu
            'r' => 103nat,  // Lr
            'v' => 116nat,  // Lv
            _ => 0nat,
        },
        'B' => match c1 {
            'e' => 4nat,  // Be
            'r' => 35nat,  // Br
            'a' => 56nat,  // Ba
            'i' => 83nat,  // Bi
            'k' => 97nat,  // Bk
            'h' => 107nat,  // Bh
            _ => 0nat,
        },
        'N' => match c1 {
            'e' => 10nat,  // Ne
            'a' => 11nat,  // Na
            'i' => 28nat,  // Ni
            'b' => 41nat,  // Nb
            'd' => 60nat,  // Nd
            'p' => 93nat,  // Np
            'o' => 102nat,  // No
            'h' => 113nat,  // Nh
            _ => 0nat,
        },
        'M' => match c1 {
            'g' => 12nat,  // Mg
            'n' => 25nat,  // Mn
            'o' => 42nat,  // Mo
            'd' => 101nat,  // Md
            't' => 109nat,  // Mt
            'c' => 115nat,  // Mc
            _ => 0nat,
        },
        'A' => match c1 {
            'l' => 13nat,  // Al
            'r' => 18nat,  // Ar
            's' => 33nat,  // As
            'g' => 47nat,  // Ag
            'u' => 79nat,  // Au
            't' => 85nat,  // At
            'c' => 89nat,  // Ac
            'm' => 95nat,  // Am
            _ => 0nat,
        },
        'S' => match c1 {
            'i' => 14nat,  // Si
            'c' => 21nat,  // Sc
            'e' => 34nat,  // Se
            'r' => 38nat,  // Sr
            'n' => 50nat,  // Sn
            'b' => 51nat,  // Sb
            'm' => 62nat,  // Sm
            'g' => 106nat,  // Sg
            _ => 0nat,
        },
        'C' => match c1 {
            'l' => 17nat,  // Cl
            'a' => 20nat,  // Ca
            'r' => 24nat,  // Cr
            'o' => 27nat,  // Co
            'u' => 29nat,  // Cu
            'd' => 48nat,  // Cd
            's' => 55nat,  // Cs
            'e' => 58nat,  // Ce
            'm' => 96nat,  // Cm
            'f' => 98nat,  // Cf
            'n' => 112nat,  // Cn
            _ => 0nat,
        },
        'T' => match c1 {
            'i' => 22nat,  // Ti
            'c' => 43nat,  // Tc
            'e' => 52nat,  // Te
            'b' => 65nat,  // Tb
            'm' => 69nat,  // Tm
            'a' => 73nat,  // Ta
            'l' => 81nat,  // Tl
            'h' => 90nat,  // Th
            's' => 117nat,  // Ts
            _ => 0nat,
        },
        'F' => match c1 {
            'e' => 26nat,  // Fe
            'r' => 87nat,  // Fr
            'm' => 100nat,  // Fm
            'l' => 114nat,  // Fl
            _ => 0nat,
        },
        'Z' => match c1 {
            'n' => 30nat,  // Zn
            'r' => 40nat,  // Zr
            _ => 0nat,
        },
        'G' => match c1 {
            'a' => 31nat,  // Ga
            'e' => 32nat,  // Ge
            'd' => 64nat,  // Gd
            _ => 0nat,
        },
        'K' => match c1 {
            'r' => 36nat,  // Kr
            _ => 0nat,
        },
        'R' => match c1 {
            'b' => 37nat,  // Rb
            'u' => 44nat,  // Ru
            'h' => 45nat,  // Rh
            'e' => 75nat,  // Re
            'n' => 86nat,  // Rn
            'a' => 88nat,  // Ra
            'f' => 104nat,  // Rf
            'g' => 111nat,  // Rg
            _ => 0nat,
        },
        'P' => match c1 {
            'd' => 46nat,  // Pd
            'r' => 59nat,  // Pr
            'm' => 61nat,  // Pm
            't' => 78nat,  // Pt
            'b' => 82nat,  // Pb
            'o' => 84nat,  // Po
            'a' => 91nat,  // Pa
            'u' => 94nat,  // Pu
            _ => 0nat,
        },
        'I' => match c1 {
            'n' => 49nat,  // In
            'r' => 77nat,  // Ir
            _ => 0nat,
        },
        'X' => match c1 {
            'e' => 54nat,  // Xe
            _ => 0nat,
        },
        'E' => match c1 {
            'u' => 63nat,  // Eu
            'r' => 68nat,  // Er
            's' => 99nat,  // Es
            _ => 0nat,
        },
        'D' => match c1 {
            'y' => 66nat,  // Dy
            'b' => 105nat,  // Db
            's' => 110nat,  // Ds
            _ => 0nat,
        },
        'Y' => match c1 {
            'b' => 70nat,  // Yb
            _ => 0nat,
        },
        'O' => match c1 {
            's' => 76nat,  // Os
            'g' => 118nat,  // Og
            _ => 0nat,
        },
        _ => 0nat,
    }
}

/// Atomic number of an element symbol; 0 for anything that is not a
/// symbol of the periodic table.
pub open spec fn spec_atomic_number(s: Seq<char>) -> nat {
    if s.len() == 1 {
        spec_atomic_number_1(s[0])
    } else if s.len() == 2 {
        spec_atomic_number_2(s[0], s[1])
    } else {
        0
    }
}

/// Look an element symbol up in the periodic table. Unknown symbols give
/// the sentinel 0 rather than failing: exotic placeholder symbols appear
/// in real geometry files and must not abort a run.
pub fn atomic_number(sym: &str) -> (z: usize)
    ensures
        z == spec_atomic_number(sym@),
        z <= 118,
{
    let n = sym.unicode_len();
    if n == 1 {
        let c = sym.get_char(0);
        match c {
            'H' => 1usize,
            'B' => 5usize,
            'C' => 6usize,
            'N' => 7usize,
            'O' => 8usize,
            'F' => 9usize,
            'P' => 15usize,
            'S' => 16usize,
            'K' => 19usize,
            'V' => 23usize,
            'Y' => 39usize,
            'I' => 53usize,
            'W' => 74usize,
            'U' => 92usize,
            _ => 0usize,
        }
    } else if n == 2 {
        let c0 = sym.get_char(0);
        let c1 = sym.get_char(1);
        match c0 {
            'H' => match c1 {
                'e' => 2usize,  // He
                'o' => 67usize,  // Ho
                'f' => 72usize,  // Hf
                'g' => 80usize,  // Hg
                's' => 108usize,  // Hs
                _ => 0usize,
            },
            'L' => match c1 {
                'i' => 3usize,  // Li
                'a' => 57usize,  // La
                'u' => 71usize,  // Lu
                'r' => 103usize,  // Lr
                'v' => 116usize,  // Lv
                _ => 0usize,
            },
            'B' => match c1 {
                'e' => 4usize,  // Be
                'r' => 35usize,  // Br
                'a' => 56usize,  // Ba
                'i' => 83usize,  // Bi
                'k' => 97usize,  // Bk
                'h' => 107usize,  // Bh
                _ => 0usize,
            },
            'N' => match c1 {
                'e' => 10usize,  // Ne
                'a' => 11usize,  // Na
                'i' => 28usize,  // Ni
                'b' => 41usize,  // Nb
                'd' => 60usize,  // Nd
                'p' => 93usize,  // Np
                'o' => 102usize,  // No
                'h' => 113usize,  // Nh
                _ => 0usize,
            },
            'M' => match c1 {
                'g' => 12usize,  // Mg
                'n' => 25usize,  // Mn
                'o' => 42usize,  // Mo
                'd' => 101usize,  // Md
                't' => 109usize,  // Mt
                'c' => 115usize,  // Mc
                _ => 0usize,
            },
            'A' => match c1 {
                'l' => 13usize,  // Al
                'r' => 18usize,  // Ar
                's' => 33usize,  // As
                'g' => 47usize,  // Ag
                'u' => 79usize,  // Au
                't' => 85usize,  // At
                'c' => 89usize,  // Ac
                'm' => 95usize,  // Am
                _ => 0usize,
            },
            'S' => match c1 {
                'i' => 14usize,  // Si
                'c' => 21usize,  // Sc
                'e' => 34usize,  // Se
                'r' => 38usize,  // Sr
                'n' => 50usize,  // Sn
                'b' => 51usize,  // Sb
                'm' => 62usize,  // Sm
                'g' => 106usize,  // Sg
                _ => 0usize,
            },
            'C' => match c1 {
                'l' => 17usize,  // Cl
                'a' => 20usize,  // Ca
                'r' => 24usize,  // Cr
                'o' => 27usize,  // Co
                'u' => 29usize,  // Cu
                'd' => 48usize,  // Cd
                's' => 55usize,  // Cs
                'e' => 58usize,  // Ce
                'm' => 96usize,  // Cm
                'f' => 98usize,  // Cf
                'n' => 112usize,  // Cn
                _ => 0usize,
            },
            'T' => match c1 {
                'i' => 22usize,  // Ti
                'c' => 43usize,  // Tc
                'e' => 52usize,  // Te
                'b' => 65usize,  // Tb
                'm' => 69usize,  // Tm
                'a' => 73usize,  // Ta
                'l' => 81usize,  // Tl
                'h' => 90usize,  // Th
                's' => 117usize,  // Ts
                _ => 0usize,
            },
            'F' => match c1 {
                'e' => 26usize,  // Fe
                'r' => 87usize,  // Fr
                'm' => 100usize,  // Fm
                'l' => 114usize,  // Fl
                _ => 0usize,
            },
            'Z' => match c1 {
                'n' => 30usize,  // Zn
                'r' => 40usize,  // Zr
                _ => 0usize,
            },
            'G' => match c1 {
                'a' => 31usize,  // Ga
                'e' => 32usize,  // Ge
                'd' => 64usize,  // Gd
                _ => 0usize,
            },
            'K' => match c1 {
                'r' => 36usize,  // Kr
                _ => 0usize,
            },
            'R' => match c1 {
                'b' => 37usize,  // Rb
                'u' => 44usize,  // Ru
                'h' => 45usize,  // Rh
                'e' => 75usize,  // Re
                'n' => 86usize,  // Rn
                'a' => 88usize,  // Ra
                'f' => 104usize,  // Rf
                'g' => 111usize,  // Rg
                _ => 0usize,
            },
            'P' => match c1 {
                'd' => 46usize,  // Pd
                'r' => 59usize,  // Pr
                'm' => 61usize,  // Pm
                't' => 78usize,  // Pt
                'b' => 82usize,  // Pb
                'o' => 84usize,  // Po
                'a' => 91usize,  // Pa
                'u' => 94usize,  // Pu
                _ => 0usize,
            },
            'I' => match c1 {
                'n' => 49usize,  // In
                'r' => 77usize,  // Ir
                _ => 0usize,
            },
            'X' => match c1 {
                'e' => 54usize,  // Xe
                _ => 0usize,
            },
            'E' => match c1 {
                'u' => 63usize,  // Eu
                'r' => 68usize,  // Er
                's' => 99usize,  // Es
                _ => 0usize,
            },
            'D' => match c1 {
                'y' => 66usize,  // Dy
                'b' => 105usize,  // Db
                's' => 110usize,  // Ds
                _ => 0usize,
            },
            'Y' => match c1 {
                'b' => 70usize,  // Yb
                _ => 0usize,
            },
            'O' => match c1 {
                's' => 76usize,  // Os
                'g' => 118usize,  // Og
                _ => 0usize,
            },
            _ => 0usize,
        }
    } else {
        0
    }
}

} // verus!
