//! Exact decimal text rendering: unsigned and signed integers, space
//! padding, and fixed-point values with exactly four decimals. These give
//! the connection-table writer its byte-exact field layout.

use vstd::prelude::*;
use vstd::string::StringExecFns;

verus! {

/// The character of one decimal digit.
pub open spec fn digit_char(d: int) -> char {
    if d == 0 {
        '0'
    } else if d == 1 {
        '1'
    } else if d == 2 {
        '2'
    } else if d == 3 {
        '3'
    } else if d == 4 {
        '4'
    } else if d == 5 {
        '5'
    } else if d == 6 {
        '6'
    } else if d == 7 {
        '7'
    } else if d == 8 {
        '8'
    } else {
        '9'
    }
}

/// Decimal digits of a non-negative integer, most significant first,
/// without leading zeros (zero itself is "0").
pub open spec fn spec_udec(n: int) -> Seq<char>
    decreases n,
{
    if n < 10 {
        seq![digit_char(n)]
    } else {
        spec_udec(n / 10).push(digit_char(n % 10))
    }
}

/// Sign-and-digits rendering of an integer.
pub open spec fn spec_idec(v: int) -> Seq<char> {
    if v < 0 {
        seq!['-'] + spec_udec(-v)
    } else {
        spec_udec(v)
    }
}

/// Left-pad with spaces to width `w`; text wider than the field is kept
/// whole.
pub open spec fn pad_left(s: Seq<char>, w: int) -> Seq<char> {
    if s.len() >= w {
        s
    } else {
        Seq::new((w - s.len()) as nat, |i: int| ' ') + s
    }
}

/// Right-pad with spaces to width `w`; text wider than the field is kept
/// whole.
pub open spec fn pad_right(s: Seq<char>, w: int) -> Seq<char> {
    if s.len() >= w {
        s
    } else {
        s + Seq::new((w - s.len()) as nat, |i: int| ' ')
    }
}

/// A fixed-point value (units of 1e-4) rendered with exactly four
/// decimals: sign, integer part, '.', then the four fractional digits.
pub open spec fn spec_fixed4(v: int) -> Seq<char> {
    let a = if v < 0 {
        -v
    } else {
        v
    };
    (if v < 0 {
        seq!['-']
    } else {
        Seq::<char>::empty()
    }) + spec_udec(a / 10000) + seq![
        '.',
        digit_char(a / 1000 % 10),
        digit_char(a / 100 % 10),
        digit_char(a / 10 % 10),
        digit_char(a % 10),
    ]
}

/// Append one decimal digit character.
fn push_digit(s: &mut String, d: u64)
    requires
        d < 10,
    ensures
        final(s)@ == old(s)@ + seq![digit_char(d as int)],
{
    proof {
        reveal_strlit("0");
        reveal_strlit("1");
        reveal_strlit("2");
        reveal_strlit("3");
        reveal_strlit("4");
        reveal_strlit("5");
        reveal_strlit("6");
        reveal_strlit("7");
        reveal_strlit("8");
        reveal_strlit("9");
    }
    if d == 0 {
        s.append("0");
    } else if d == 1 {
        s.append("1");
    } else if d == 2 {
        s.append("2");
    } else if d == 3 {
        s.append("3");
    } else if d == 4 {
        s.append("4");
    } else if d == 5 {
        s.append("5");
    } else if d == 6 {
        s.append("6");
    } else if d == 7 {
        s.append("7");
    } else if d == 8 {
        s.append("8");
    } else {
        s.append("9");
    }
    proof {
        assert(s@ =~= old(s)@ + seq![digit_char(d as int)]);
    }
}

/// Decimal rendering of an unsigned integer.
pub fn format_u64(n: u64) -> (s: String)
    ensures
        s@ == spec_udec(n as int),
    decreases n,
{
    if n < 10 {
        let mut s = String::new();
        push_digit(&mut s, n);
        proof {
            assert(s@ =~= spec_udec(n as int));
        }
        s
    } else {
        let mut s = format_u64(n / 10);
        push_digit(&mut s, n % 10);
        proof {
            assert(s@ =~= spec_udec(n as int));
        }
        s
    }
}

/// The absolute value of a signed integer, exact also at the extreme.
fn abs_u64(v: i64) -> (a: u64)
    ensures
        a as int == (if v < 0 {
            -(v as int)
        } else {
            v as int
        }),
{
    if v >= 0 {
        v as u64
    } else if v == i64::MIN {
        9_223_372_036_854_775_808u64
    } else {
        (-v) as u64
    }
}

/// Decimal rendering of a signed integer.
pub fn format_i64(v: i64) -> (s: String)
    ensures
        s@ == spec_idec(v as int),
{
    let a = abs_u64(v);
    if v >= 0 {
        format_u64(a)
    } else {
        let mut s = String::from_str("-");
        let digits = format_u64(a);
        s.append(digits.as_str());
        proof {
            reveal_strlit("-");
            assert(s@ =~= spec_idec(v as int));
        }
        s
    }
}

/// Left-pad a string with spaces to the given field width.
pub fn pad_to_left(s: &str, w: usize) -> (r: String)
    ensures
        r@ == pad_left(s@, w as int),
{
    let n = s.unicode_len();
    if n >= w {
        return String::from_str(s);
    }
    let mut r = String::new();
    let mut i: usize = 0;
    while i < w - n
        invariant
            i <= w - n,
            n == s@.len(),
            n < w,
            r@ =~= Seq::new(i as nat, |j: int| ' '),
        decreases w - n - i,
    {
        r.append(" ");
        proof {
            reveal_strlit(" ");
            assert(r@ =~= Seq::new((i + 1) as nat, |j: int| ' '));
        }
        i += 1;
    }
    r.append(s);
    proof {
        assert(r@ =~= pad_left(s@, w as int));
    }
    r
}

/// Right-pad a string with spaces to the given field width.
pub fn pad_to_right(s: &str, w: usize) -> (r: String)
    ensures
        r@ == pad_right(s@, w as int),
{
    let n = s.unicode_len();
    let mut r = String::from_str(s);
    if n >= w {
        proof {
            assert(r@ =~= pad_right(s@, w as int));
        }
        return r;
    }
    let mut i: usize = 0;
    while i < w - n
        invariant
            i <= w - n,
            n == s@.len(),
            n < w,
            r@ =~= s@ + Seq::new(i as nat, |j: int| ' '),
        decreases w - n - i,
    {
        r.append(" ");
        proof {
            reveal_strlit(" ");
            assert(r@ =~= s@ + Seq::new((i + 1) as nat, |j: int| ' '));
        }
        i += 1;
    }
    proof {
        assert(r@ =~= pad_right(s@, w as int));
    }
    r
}

/// Fixed-point rendering with exactly four decimals.
pub fn format_fixed4(v: i64) -> (s: String)
    ensures
        s@ == spec_fixed4(v as int),
{
    let a = abs_u64(v);
    let mut s = if v < 0 {
        String::from_str("-")
    } else {
        String::new()
    };
    proof {
        reveal_strlit("-");
    }
    let int_part = format_u64(a / 10000);
    s.append(int_part.as_str());
    s.append(".");
    proof {
        reveal_strlit(".");
    }
    push_digit(&mut s, a / 1000 % 10);
    push_digit(&mut s, a / 100 % 10);
    push_digit(&mut s, a / 10 % 10);
    push_digit(&mut s, a % 10);
    proof {
        assert(s@ =~= spec_fixed4(v as int));
    }
    s
}

} // verus!
