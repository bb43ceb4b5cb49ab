//! The xyz geometry grammar: first record the atom count, second a free
//! info line, every further non-blank record an element symbol and three
//! coordinates. The parser is exact: it accepts precisely the texts the
//! grammar describes, with every coordinate within the fixed-point range.

use vstd::prelude::*;
use vstd::string::StrSliceExecFns;
use vstd::string::StringExecFns;

verus! {

/// Inline whitespace (the line separator `'\n'` is handled separately).
pub open spec fn is_space(c: char) -> bool {
    c == ' ' || c == '\t' || c == '\r' || c == '\u{b}' || c == '\u{c}'
}

/// Split on `'\n'`: always at least one line; a trailing separator makes
/// a final empty line.
pub open spec fn spec_split_lines(s: Seq<char>) -> Seq<Seq<char>>
    decreases s.len(),
{
    if s.len() == 0 {
        seq![Seq::<char>::empty()]
    } else if s[0] == '\n' {
        seq![Seq::<char>::empty()] + spec_split_lines(s.drop_first())
    } else {
        let rest = spec_split_lines(s.drop_first());
        seq![seq![s[0]] + rest[0]] + rest.drop_first()
    }
}

proof fn lemma_split_lines_nonempty(s: Seq<char>)
    ensures
        spec_split_lines(s).len() >= 1,
    decreases s.len(),
{
    if s.len() > 0 {
        lemma_split_lines_nonempty(s.drop_first());
    }
}

/// A line of nothing but whitespace.
pub open spec fn is_blank(s: Seq<char>) -> bool {
    forall|l: int| 0 <= l < s.len() ==> is_space(#[trigger] s[l])
}

/// Strip leading whitespace.
pub open spec fn trim_front(s: Seq<char>) -> Seq<char>
    decreases s.len(),
{
    if s.len() > 0 && is_space(s[0]) {
        trim_front(s.drop_first())
    } else {
        s
    }
}

/// Strip trailing whitespace.
pub open spec fn trim_back(s: Seq<char>) -> Seq<char>
    decreases s.len(),
{
    if s.len() > 0 && is_space(s.last()) {
        trim_back(s.drop_last())
    } else {
        s
    }
}

/// Strip whitespace from both ends.
pub open spec fn spec_trim(s: Seq<char>) -> Seq<char> {
    trim_back(trim_front(s))
}

/// The whitespace-separated tokens of a line, in order.
pub open spec fn spec_tokens(s: Seq<char>) -> Seq<Seq<char>>
    decreases s.len(),
{
    if s.len() == 0 {
        Seq::empty()
    } else if is_space(s[0]) {
        spec_tokens(s.drop_first())
    } else if s.len() == 1 || is_space(s[1]) {
        seq![seq![s[0]]] + spec_tokens(s.drop_first())
    } else {
        let rest = spec_tokens(s.drop_first());
        seq![seq![s[0]] + rest[0]] + rest.drop_first()
    }
}

proof fn lemma_tokens_nonempty_head(s: Seq<char>)
    requires
        s.len() > 0,
        !is_space(s[0]),
    ensures
        spec_tokens(s).len() >= 1,
    decreases s.len(),
{
    if !(s.len() == 1 || is_space(s[1])) {
        lemma_tokens_nonempty_head(s.drop_first());
    }
}

/// A maximal non-space run at the front is the first token.
proof fn lemma_token_prefix(s: Seq<char>, k: int)
    requires
        0 < k <= s.len(),
        forall|l: int| 0 <= l < k ==> !is_space(#[trigger] s[l]),
        k == s.len() || is_space(s[k]),
    ensures
        spec_tokens(s) == seq![s.take(k)] + spec_tokens(s.skip(k)),
    decreases k,
{
    if k == 1 {
        if s.len() == 1 || is_space(s[1]) {
            assert(spec_tokens(s) =~~= seq![s.take(1)] + spec_tokens(s.skip(1))) by {
                assert(s.drop_first() =~= s.skip(1));
                assert(seq![s[0]] =~= s.take(1));
            }
        }
    } else {
        let d = s.drop_first();
        assert forall|l: int| 0 <= l < k - 1 implies !is_space(#[trigger] d[l]) by {
            assert(d[l] == s[l + 1]);
        }
        lemma_token_prefix(d, k - 1);
        lemma_tokens_nonempty_head(d);
        assert(spec_tokens(s) =~~= seq![s.take(k)] + spec_tokens(s.skip(k))) by {
            assert(d.take(k - 1) =~= s.take(k).drop_first());
            assert(d.skip(k - 1) =~= s.skip(k));
            assert(seq![s[0]] + d.take(k - 1) =~= s.take(k));
        }
    }
}

/// Leading whitespace contributes no token.
proof fn lemma_tokens_skip_space(s: Seq<char>)
    requires
        s.len() > 0,
        is_space(s[0]),
    ensures
        spec_tokens(s) == spec_tokens(s.skip(1)),
{
    assert(s.drop_first() =~= s.skip(1));
}

proof fn lemma_trim_front_at(s: Seq<char>, lo: int)
    requires
        0 <= lo <= s.len(),
        forall|l: int| 0 <= l < lo ==> is_space(#[trigger] s[l]),
        lo == s.len() || !is_space(s[lo]),
    ensures
        trim_front(s) == s.skip(lo),
    decreases lo,
{
    if lo == 0 {
        assert(s.skip(0) =~= s);
    } else {
        let d = s.drop_first();
        assert forall|l: int| 0 <= l < lo - 1 implies is_space(#[trigger] d[l]) by {
            assert(d[l] == s[l + 1]);
        }
        lemma_trim_front_at(d, lo - 1);
        assert(d.skip(lo - 1) =~= s.skip(lo));
    }
}

proof fn lemma_trim_back_at(s: Seq<char>, hi: int)
    requires
        0 <= hi <= s.len(),
        forall|l: int| hi <= l < s.len() ==> is_space(#[trigger] s[l]),
        hi == 0 || !is_space(s[hi - 1]),
    ensures
        trim_back(s) == s.take(hi),
    decreases s.len(),
{
    if hi == s.len() {
        assert(s.take(hi) =~= s);
    } else {
        let d = s.drop_last();
        assert(is_space(s.last()));
        assert forall|l: int| hi <= l < d.len() implies is_space(#[trigger] d[l]) by {
            assert(d[l] == s[l]);
        }
        lemma_trim_back_at(d, hi);
        assert(d.take(hi) =~= s.take(hi));
    }
}

/// What one line list looks like as character sequences.
pub open spec fn line_views(lines: Seq<String>) -> Seq<Seq<char>> {
    lines.map_values(|l: String| l@)
}

spec fn prepend_first(c: Seq<char>, ls: Seq<Seq<char>>) -> Seq<Seq<char>> {
    seq![c + ls[0]] + ls.drop_first()
}

/// Split a text into its lines.
fn split_lines(s: &str) -> (lines: Vec<String>)
    ensures
        line_views(lines@) == spec_split_lines(s@),
        lines@.len() >= 1,
{
    let n = s.unicode_len();
    let mut lines: Vec<String> = Vec::new();
    let mut start: usize = 0;
    let mut i: usize = 0;
    proof {
        lemma_split_lines_nonempty(s@);
        assert(s@.skip(0) =~= s@);
        assert(spec_split_lines(s@) =~~= line_views(lines@) + prepend_first(
            s@.subrange(0, 0),
            spec_split_lines(s@),
        ));
    }
    while i < n
        invariant
            start <= i <= n,
            n == s@.len(),
            spec_split_lines(s@) == line_views(lines@) + prepend_first(
                s@.subrange(start as int, i as int),
                spec_split_lines(s@.skip(i as int)),
            ),
        decreases n - i,
    {
        let c = s.get_char(i);
        proof {
            lemma_split_lines_nonempty(s@.skip(i + 1));
            assert(s@.skip(i as int).drop_first() =~= s@.skip(i + 1));
        }
        if c == '\n' {
            let line = s.substring_char(start, i);
            lines.push(String::from_str(line));
            proof {
                assert(line_views(lines@) =~= line_views(lines@.drop_last()) + seq![
                    s@.subrange(start as int, i as int),
                ]);
                assert(prepend_first(
                    s@.subrange(start as int, i as int),
                    spec_split_lines(s@.skip(i as int)),
                ) =~~= seq![s@.subrange(start as int, i as int)] + prepend_first(
                    Seq::<char>::empty(),
                    spec_split_lines(s@.skip(i + 1)),
                ));
                assert(prepend_first(Seq::<char>::empty(), spec_split_lines(s@.skip(i + 1)))
                    =~~= spec_split_lines(s@.skip(i + 1)));
            }
            start = i + 1;
        } else {
            proof {
                assert(s@.subrange(start as int, i + 1) =~= s@.subrange(start as int, i as int)
                    .push(s@[i as int]));
                assert(prepend_first(
                    s@.subrange(start as int, i as int),
                    spec_split_lines(s@.skip(i as int)),
                ) =~~= prepend_first(
                    s@.subrange(start as int, i + 1),
                    spec_split_lines(s@.skip(i + 1)),
                ));
            }
        }
        i += 1;
    }
    let last = s.substring_char(start, n);
    lines.push(String::from_str(last));
    proof {
        assert(s@.skip(n as int).len() == 0);
        assert(prepend_first(
            s@.subrange(start as int, n as int),
            spec_split_lines(s@.skip(n as int)),
        ) =~~= seq![s@.subrange(start as int, n as int)]);
        assert(line_views(lines@) =~= line_views(lines@.drop_last()) + seq![
            s@.subrange(start as int, n as int),
        ]);
        assert(line_views(lines@) =~= spec_split_lines(s@));
    }
    lines
}

/// Whether one character is inline whitespace.
fn is_space_char(c: char) -> (r: bool)
    ensures
        r == is_space(c),
{
    c == ' ' || c == '\t' || c == '\r' || c == '\u{b}' || c == '\u{c}'
}

/// Whether a line holds nothing but whitespace.
fn blank_line(s: &str) -> (r: bool)
    ensures
        r == is_blank(s@),
{
    let n = s.unicode_len();
    let mut i: usize = 0;
    while i < n
        invariant
            i <= n,
            n == s@.len(),
            forall|l: int| 0 <= l < i ==> is_space(#[trigger] s@[l]),
        decreases n - i,
    {
        if !is_space_char(s.get_char(i)) {
            return false;
        }
        i += 1;
    }
    true
}

/// Strip whitespace from both ends of a line.
fn trim(s: &str) -> (r: String)
    ensures
        r@ == spec_trim(s@),
{
    let n = s.unicode_len();
    let mut lo: usize = 0;
    while lo < n && is_space_char(s.get_char(lo))
        invariant
            lo <= n,
            n == s@.len(),
            forall|l: int| 0 <= l < lo ==> is_space(#[trigger] s@[l]),
        decreases n - lo,
    {
        lo += 1;
    }
    let mut hi: usize = n;
    while hi > lo && is_space_char(s.get_char(hi - 1))
        invariant
            lo <= hi <= n,
            n == s@.len(),
            forall|l: int| hi <= l < n ==> is_space(#[trigger] s@[l]),
        decreases hi,
    {
        hi -= 1;
    }
    proof {
        lemma_trim_front_at(s@, lo as int);
        let f = s@.skip(lo as int);
        assert forall|l: int| hi - lo <= l < f.len() implies is_space(#[trigger] f[l]) by {
            assert(f[l] == s@[l + lo]);
        }
        lemma_trim_back_at(f, hi - lo);
        assert(f.take(hi - lo) =~= s@.subrange(lo as int, hi as int));
    }
    let r = s.substring_char(lo, hi);
    String::from_str(r)
}

/// The whitespace-separated tokens of a line.
fn tokens(s: &str) -> (toks: Vec<String>)
    ensures
        toks@.map_values(|t: String| t@) == spec_tokens(s@),
{
    let n = s.unicode_len();
    let mut toks: Vec<String> = Vec::new();
    let mut i: usize = 0;
    proof {
        assert(s@.skip(0) =~= s@);
        assert(spec_tokens(s@) =~~= toks@.map_values(|t: String| t@) + spec_tokens(s@));
    }
    while i < n
        invariant
            i <= n,
            n == s@.len(),
            spec_tokens(s@) == toks@.map_values(|t: String| t@) + spec_tokens(s@.skip(i as int)),
        decreases n - i,
    {
        if is_space_char(s.get_char(i)) {
            proof {
                lemma_tokens_skip_space(s@.skip(i as int));
                assert(s@.skip(i as int).skip(1) =~= s@.skip(i + 1));
            }
            i += 1;
        } else {
            let start = i;
            let mut j = i + 1;
            while j < n && !is_space_char(s.get_char(j))
                invariant
                    start < j <= n,
                    n == s@.len(),
                    forall|l: int| start <= l < j ==> !is_space(#[trigger] s@[l]),
                decreases n - j,
            {
                j += 1;
            }
            let tok = s.substring_char(start, j);
            toks.push(String::from_str(tok));
            proof {
                let rem = s@.skip(start as int);
                assert forall|l: int| 0 <= l < j - start implies !is_space(#[trigger] rem[l]) by {
                    assert(rem[l] == s@[l + start]);
                }
                assert(j - start == rem.len() || is_space(rem[j - start]));
                lemma_token_prefix(rem, j - start);
                assert(rem.take(j - start) =~= s@.subrange(start as int, j as int));
                assert(rem.skip(j - start) =~= s@.skip(j as int));
                assert(toks@.map_values(|t: String| t@) =~~= toks@.drop_last().map_values(
                    |t: String| t@,
                ) + seq![s@.subrange(start as int, j as int)]);
            }
            i = j;
        }
    }
    proof {
        assert(spec_tokens(s@.skip(n as int)) =~~= Seq::<Seq<char>>::empty());
        assert(toks@.map_values(|t: String| t@) =~~= spec_tokens(s@));
    }
    toks
}

} // verus!

use crate::{MambaError, MAX_ABS_COORD};

verus! {

/// Numeric value of one decimal digit character, `-1` for anything else.
pub open spec fn digit_of(c: char) -> int {
    if c == '0' {
        0
    } else if c == '1' {
        1
    } else if c == '2' {
        2
    } else if c == '3' {
        3
    } else if c == '4' {
        4
    } else if c == '5' {
        5
    } else if c == '6' {
        6
    } else if c == '7' {
        7
    } else if c == '8' {
        8
    } else if c == '9' {
        9
    } else {
        -1
    }
}

pub open spec fn is_digit(c: char) -> bool {
    digit_of(c) >= 0
}

pub open spec fn is_digits(s: Seq<char>) -> bool {
    forall|l: int| 0 <= l < s.len() ==> is_digit(#[trigger] s[l])
}

/// Value of a digit string, most significant digit first.
pub open spec fn uint_val(s: Seq<char>) -> int
    decreases s.len(),
{
    if s.len() == 0 {
        0
    } else {
        uint_val(s.drop_last()) * 10 + digit_of(s.last())
    }
}

/// The digits of an unsigned-integer token (an optional leading `'+'`
/// is allowed, as the usual integer grammar accepts it).
pub open spec fn uint_body(s: Seq<char>) -> Seq<char> {
    if s.len() > 0 && s[0] == '+' {
        s.drop_first()
    } else {
        s
    }
}

pub open spec fn is_uint_token(s: Seq<char>) -> bool {
    uint_body(s).len() >= 1 && is_digits(uint_body(s))
}

pub open spec fn uint_token_val(s: Seq<char>) -> int {
    uint_val(uint_body(s))
}

proof fn lemma_uint_val_nonneg(s: Seq<char>)
    requires
        is_digits(s),
    ensures
        uint_val(s) >= 0,
    decreases s.len(),
{
    if s.len() > 0 {
        assert(is_digits(s.drop_last())) by {
            assert(forall|l: int|
                0 <= l < s.len() - 1 ==> is_digit(#[trigger] s.drop_last()[l]) == is_digit(s[l]));
        }
        lemma_uint_val_nonneg(s.drop_last());
    }
}

/// Once a digit prefix exceeds a positive bound, the whole string does:
/// appending characters can at worst multiply by ten and subtract one.
proof fn lemma_uint_val_grows(s: Seq<char>, k: int, c: int)
    requires
        0 <= k <= s.len(),
        c >= 1,
        uint_val(s.take(k)) > c,
    ensures
        uint_val(s) > c,
    decreases s.len() - k,
{
    if k < s.len() {
        assert(s.take(k + 1).drop_last() =~= s.take(k));
        assert(digit_of(s.take(k + 1).last()) >= -1);
        lemma_uint_val_grows(s, k + 1, c);
    } else {
        assert(s.take(k) =~= s);
    }
}

/// Classify one character as a decimal digit.
fn digit_of_char(c: char) -> (r: Option<u8>)
    ensures
        r is Some <==> is_digit(c),
        r matches Some(d) ==> d as int == digit_of(c),
{
    if c == '0' {
        Some(0)
    } else if c == '1' {
        Some(1)
    } else if c == '2' {
        Some(2)
    } else if c == '3' {
        Some(3)
    } else if c == '4' {
        Some(4)
    } else if c == '5' {
        Some(5)
    } else if c == '6' {
        Some(6)
    } else if c == '7' {
        Some(7)
    } else if c == '8' {
        Some(8)
    } else if c == '9' {
        Some(9)
    } else {
        None
    }
}

/// Parse an unsigned-integer token: accepts exactly the tokens of the
/// grammar whose value fits the machine word, and returns that value.
pub fn parse_uint(s: &str) -> (r: Result<usize, MambaError>)
    ensures
        r is Ok <==> is_uint_token(s@) && uint_token_val(s@) <= usize::MAX,
        r matches Ok(v) ==> v as int == uint_token_val(s@),
        r matches Err(e) ==> e == MambaError::ParseError,
{
    let n = s.unicode_len();
    let mut i: usize = 0;
    if n > 0 && s.get_char(0) == '+' {
        i = 1;
    }
    proof {
        assert(uint_body(s@) =~= s@.skip(i as int));
    }
    if i == n {
        return Err(MambaError::ParseError);
    }
    let ghost body = s@.skip(i as int);
    let mut acc: u128 = 0;
    let mut l: usize = i;
    while l < n
        invariant
            i <= l <= n,
            n == s@.len(),
            body == s@.skip(i as int),
            body == uint_body(s@),
            forall|w: int| 0 <= w < l - i ==> is_digit(#[trigger] body[w]),
            acc <= 0xffff_ffff_ffff_ffffu128 * 10 + 9,
            (acc <= usize::MAX && acc as int == uint_val(body.take(l - i))) || (acc > usize::MAX
                && uint_val(body.take(l - i)) > usize::MAX),
        decreases n - l,
    {
        let c = s.get_char(l);
        proof {
            assert(body[l - i] == s@[l as int]);
        }
        match digit_of_char(c) {
            None => {
                proof {
                    assert(uint_body(s@) =~= body);
                    assert(!is_digit(uint_body(s@)[l - i]));
                    assert(!is_uint_token(s@));
                }
                return Err(MambaError::ParseError);
            },
            Some(d) => {
                proof {
                    assert(body.take(l - i + 1).drop_last() =~= body.take(l - i));
                    assert(body.take(l - i + 1).last() == body[l - i]);
                    assert(forall|w: int|
                        0 <= w < l - i ==> is_digit(#[trigger] body.take(l - i)[w]));
                    lemma_uint_val_nonneg(body.take(l - i));
                }
                if acc <= usize::MAX as u128 {
                    acc = acc * 10 + (d as u128);
                } else {
                    proof {
                        assert(uint_val(body.take(l - i + 1)) == uint_val(body.take(l - i)) * 10
                            + d);
                    }
                }
            },
        }
        l += 1;
    }
    proof {
        assert(body.take(n - i) =~= body);
    }
    if acc > usize::MAX as u128 {
        return Err(MambaError::ParseError);
    }
    Ok(acc as usize)
}

/// The sign of a signed numeric token.
pub open spec fn sign_of(s: Seq<char>) -> int {
    if s.len() > 0 && s[0] == '-' {
        -1
    } else {
        1
    }
}

/// The token body after an optional sign.
pub open spec fn sign_body(s: Seq<char>) -> Seq<char> {
    if s.len() > 0 && (s[0] == '-' || s[0] == '+') {
        s.drop_first()
    } else {
        s
    }
}

/// The characters before the first `'.'`.
pub open spec fn int_part(s: Seq<char>) -> Seq<char>
    decreases s.len(),
{
    if s.len() == 0 {
        s
    } else if s[0] == '.' {
        Seq::empty()
    } else {
        seq![s[0]] + int_part(s.drop_first())
    }
}

/// The characters after the first `'.'`, empty when there is none.
pub open spec fn frac_part(s: Seq<char>) -> Seq<char>
    decreases s.len(),
{
    if s.len() == 0 {
        Seq::empty()
    } else if s[0] == '.' {
        s.drop_first()
    } else {
        frac_part(s.drop_first())
    }
}

/// A fixed-point numeric token: optional sign, digits, at most one
/// `'.'`, digits — with at least one digit somewhere.
pub open spec fn is_fixed_token(s: Seq<char>) -> bool {
    let b = sign_body(s);
    &&& is_digits(int_part(b))
    &&& is_digits(frac_part(b))
    &&& int_part(b).len() + frac_part(b).len() >= 1
}

/// The `k`-th fractional digit, with zeros past the written digits.
pub open spec fn frac_digit(f: Seq<char>, k: int) -> int {
    if k < f.len() {
        digit_of(f[k])
    } else {
        0
    }
}

/// Value of a fractional part in units of 1e-4, truncated after the
/// fourth digit.
pub open spec fn frac4_val(f: Seq<char>) -> int {
    frac_digit(f, 0) * 1000 + frac_digit(f, 1) * 100 + frac_digit(f, 2) * 10 + frac_digit(f, 3)
}

/// The fixed-point value (units of 1e-4) of a numeric token.
pub open spec fn fixed_val(s: Seq<char>) -> int {
    sign_of(s) * (uint_val(int_part(sign_body(s))) * 10000 + frac4_val(frac_part(sign_body(s))))
}

/// A coordinate field the pipeline accepts: a fixed-point token whose
/// value is within the coordinate range.
pub open spec fn valid_coord_token(s: Seq<char>) -> bool {
    is_fixed_token(s) && -MAX_ABS_COORD <= fixed_val(s) <= MAX_ABS_COORD
}

proof fn lemma_int_part_at(s: Seq<char>, k: int)
    requires
        0 <= k <= s.len(),
        forall|l: int| 0 <= l < k ==> (#[trigger] s[l]) != '.',
        k == s.len() || s[k] == '.',
    ensures
        int_part(s) == s.take(k),
        frac_part(s) == (if k == s.len() {
            Seq::<char>::empty()
        } else {
            s.skip(k + 1)
        }),
    decreases k,
{
    if k == 0 {
        assert(s.take(0) =~= Seq::<char>::empty());
        if s.len() == 0 {
            assert(int_part(s) =~= s.take(0));
        }
    } else {
        let d = s.drop_first();
        assert forall|l: int| 0 <= l < k - 1 implies (#[trigger] d[l]) != '.' by {
            assert(d[l] == s[l + 1]);
        }
        lemma_int_part_at(d, k - 1);
        assert(seq![s[0]] + d.take(k - 1) =~= s.take(k));
        if k < s.len() {
            assert(d.skip(k) =~= s.skip(k + 1));
        }
    }
}

/// Parse one coordinate field into its fixed-point value. Accepts
/// exactly the fixed-point tokens whose value lies within the
/// coordinate range.
pub fn parse_coord(s: &str) -> (r: Result<i64, MambaError>)
    ensures
        r is Ok <==> valid_coord_token(s@),
        r matches Ok(v) ==> v as int == fixed_val(s@) && -MAX_ABS_COORD <= v <= MAX_ABS_COORD,
        r matches Err(e) ==> e == MambaError::ParseError,
{
    let n = s.unicode_len();
    let mut i: usize = 0;
    let mut neg = false;
    if n > 0 {
        let c0 = s.get_char(0);
        if c0 == '-' {
            neg = true;
            i = 1;
        } else if c0 == '+' {
            i = 1;
        }
    }
    let ghost body = s@.skip(i as int);
    proof {
        assert(sign_body(s@) =~= body);
        assert(sign_of(s@) == (if neg {
            -1int
        } else {
            1int
        }));
    }
    // find the first '.', if any
    let mut dpos: usize = i;
    while dpos < n && s.get_char(dpos) != '.'
        invariant
            i <= dpos <= n,
            n == s@.len(),
            forall|l: int| i <= l < dpos ==> (#[trigger] s@[l]) != '.',
        decreases n - dpos,
    {
        dpos += 1;
    }
    proof {
        assert forall|l: int| 0 <= l < dpos - i implies (#[trigger] body[l]) != '.' by {
            assert(body[l] == s@[l + i]);
        }
        lemma_int_part_at(body, dpos - i);
        assert(body.take(dpos - i) =~= s@.subrange(i as int, dpos as int));
        if (dpos as int) < n {
            assert(body.skip(dpos - i + 1) =~= s@.skip(dpos + 1));
        }
    }
    let ghost ip = int_part(body);
    let ghost fp = frac_part(body);
    // shape: at least one digit somewhere
    if dpos == n {
        if dpos - i < 1 {
            return Err(MambaError::ParseError);
        }
    } else {
        if (dpos - i) + (n - dpos - 1) < 1 {
            return Err(MambaError::ParseError);
        }
    }
    // integer digits, most significant first
    let mut acc: u64 = 0;
    let mut l: usize = i;
    while l < dpos
        invariant
            i <= l <= dpos <= n,
            n == s@.len(),
            body == s@.skip(i as int),
            body == sign_body(s@),
            ip == int_part(body),
            ip == body.take(dpos - i),
            forall|w: int| 0 <= w < l - i ==> is_digit(#[trigger] ip[w]),
            acc <= 100_009,
            (acc <= 10_000 && acc as int == uint_val(ip.take(l - i))) || (acc > 10_000 && uint_val(
                ip.take(l - i),
            ) > 10_000),
        decreases dpos - l,
    {
        let c = s.get_char(l);
        proof {
            assert(ip[l - i] == s@[l as int]);
        }
        match digit_of_char(c) {
            None => {
                proof {
                    assert(sign_body(s@) =~= body);
                    assert(!is_digit(int_part(sign_body(s@))[l - i]));
                    assert(!is_fixed_token(s@));
                }
                return Err(MambaError::ParseError);
            },
            Some(d) => {
                proof {
                    assert(ip.take(l - i + 1).drop_last() =~= ip.take(l - i));
                    assert(ip.take(l - i + 1).last() == ip[l - i]);
                    assert(forall|w: int| 0 <= w < l - i ==> is_digit(#[trigger] ip.take(l - i)[w]));
                    lemma_uint_val_nonneg(ip.take(l - i));
                }
                if acc <= 10_000 {
                    acc = acc * 10 + (d as u64);
                } else {
                    proof {
                        assert(uint_val(ip.take(l - i + 1)) == uint_val(ip.take(l - i)) * 10 + d);
                    }
                }
            },
        }
        l += 1;
    }
    proof {
        assert(ip.take(dpos - i) =~= ip);
    }
    if acc > 10_000 {
        proof {
            assert(sign_body(s@) =~= body);
            assert(uint_val(int_part(sign_body(s@))) > 10_000);
            assert(frac4_val(fp) >= -1 * 1000 - 1 * 100 - 1 * 10 - 1);
            assert(uint_val(ip) * 10000 >= 100_010_000) by (nonlinear_arith)
                requires
                    uint_val(ip) > 10_000,
            ;
            assert(fixed_val(s@) > MAX_ABS_COORD || fixed_val(s@) < -MAX_ABS_COORD);
            assert(!valid_coord_token(s@));
        }
        return Err(MambaError::ParseError);
    }
    // fractional digits: the first four carry value, the rest only shape
    let mut fr: u64 = 0;
    if dpos < n {
        let mut l: usize = dpos + 1;
        while l < n
            invariant
                dpos + 1 <= l <= n,
                n == s@.len(),
                body == s@.skip(i as int),
                body == sign_body(s@),
                fp == frac_part(body),
                fp == s@.skip(dpos + 1),
                i <= dpos < n,
                forall|w: int| 0 <= w < l - dpos - 1 ==> is_digit(#[trigger] fp[w]),
                fr <= 9999,
                fr as int == (if l - dpos - 1 > 0 {
                    digit_of(fp[0]) * 1000
                } else {
                    0
                }) + (if l - dpos - 1 > 1 {
                    digit_of(fp[1]) * 100
                } else {
                    0
                }) + (if l - dpos - 1 > 2 {
                    digit_of(fp[2]) * 10
                } else {
                    0
                }) + (if l - dpos - 1 > 3 {
                    digit_of(fp[3])
                } else {
                    0
                }),
            decreases n - l,
        {
            let c = s.get_char(l);
            proof {
                assert(fp[l - dpos - 1] == s@[l as int]);
            }
            match digit_of_char(c) {
                None => {
                    proof {
                        assert(sign_body(s@) =~= body);
                        assert(!is_digit(frac_part(sign_body(s@))[l - dpos - 1]));
                        assert(!is_fixed_token(s@));
                    }
                    return Err(MambaError::ParseError);
                },
                Some(d) => {
                    let k = l - dpos - 1;
                    if k == 0 {
                        fr = fr + (d as u64) * 1000;
                    } else if k == 1 {
                        fr = fr + (d as u64) * 100;
                    } else if k == 2 {
                        fr = fr + (d as u64) * 10;
                    } else if k == 3 {
                        fr = fr + (d as u64);
                    }
                },
            }
            l += 1;
        }
    }
    proof {
        if dpos == n {
            assert(fp =~= Seq::<char>::empty());
        }
        assert(fr as int == frac4_val(fp));
        lemma_uint_val_nonneg(ip);
    }
    let v: u64 = acc * 10000 + fr;
    if v > 100_000_000 {
        return Err(MambaError::ParseError);
    }
    let signed: i64 = if neg {
        -(v as i64)
    } else {
        v as i64
    };
    proof {
        assert(signed as int == fixed_val(s@));
    }
    Ok(signed)
}

} // verus!

use crate::molecule::{coord_in_range, Coord, XYZMolecule};
use crate::utils::lemma_filter_push;

verus! {

/// The test keeping non-blank lines.
pub open spec fn nonblank_pred() -> spec_fn(Seq<char>) -> bool {
    |l: Seq<char>| !is_blank(l)
}

/// The atom records of a line list: every non-blank line after the
/// count line and the info line.
pub open spec fn spec_atom_records(lines: Seq<Seq<char>>) -> Seq<Seq<char>> {
    if lines.len() <= 2 {
        Seq::empty()
    } else {
        lines.skip(2).filter(nonblank_pred())
    }
}

/// A well-formed atom record: an element token, then at least three
/// coordinate fields within range; further fields are ignored.
pub open spec fn atom_line_ok(l: Seq<char>) -> bool {
    let t = spec_tokens(l);
    &&& t.len() >= 4
    &&& valid_coord_token(t[1])
    &&& valid_coord_token(t[2])
    &&& valid_coord_token(t[3])
}

/// The element symbol of an atom record.
pub open spec fn spec_atom_symbol(l: Seq<char>) -> Seq<char> {
    spec_tokens(l)[0]
}

/// The coordinate of an atom record.
pub open spec fn spec_atom_coord(l: Seq<char>) -> Coord {
    Coord {
        x: fixed_val(spec_tokens(l)[1]) as i64,
        y: fixed_val(spec_tokens(l)[2]) as i64,
        z: fixed_val(spec_tokens(l)[3]) as i64,
    }
}

/// The text follows the xyz grammar: the first line is an atom count
/// that fits the machine word, and every atom record is well-formed.
pub open spec fn spec_xyz_ok(s: Seq<char>) -> bool {
    let lines = spec_split_lines(s);
    &&& is_uint_token(spec_trim(lines[0]))
    &&& uint_token_val(spec_trim(lines[0])) <= usize::MAX
    &&& forall|w: int|
        0 <= w < spec_atom_records(lines).len() ==> atom_line_ok(
            #[trigger] spec_atom_records(lines)[w],
        )
}

/// The declared atom count.
pub open spec fn spec_xyz_natoms(s: Seq<char>) -> int {
    uint_token_val(spec_trim(spec_split_lines(s)[0]))
}

/// Whether the declared count equals the number of atom records.
pub open spec fn spec_xyz_count_matches(s: Seq<char>) -> bool {
    spec_xyz_natoms(s) == spec_atom_records(spec_split_lines(s)).len()
}

/// The info line: the second line of the text, empty when missing.
pub open spec fn spec_xyz_info(s: Seq<char>) -> Seq<char> {
    let lines = spec_split_lines(s);
    if lines.len() >= 2 {
        lines[1]
    } else {
        Seq::empty()
    }
}

/// The element symbols of the text, in record order.
pub open spec fn spec_xyz_symbols(s: Seq<char>) -> Seq<Seq<char>> {
    spec_atom_records(spec_split_lines(s)).map_values(|l: Seq<char>| spec_atom_symbol(l))
}

/// The coordinates of the text, in record order.
pub open spec fn spec_xyz_coords(s: Seq<char>) -> Seq<Coord> {
    spec_atom_records(spec_split_lines(s)).map_values(|l: Seq<char>| spec_atom_coord(l))
}

/// Parse the contents of an xyz geometry text into a molecule. Accepts
/// exactly the texts of the grammar whose declared atom count equals the
/// number of atom records; a grammar violation is a `ParseError`, a
/// well-formed text with the wrong count an `AtomCountMismatch`.
pub fn mol_from_xyz_string(contents: &str) -> (res: Result<XYZMolecule, MambaError>)
    ensures
        res is Ok <==> spec_xyz_ok(contents@) && spec_xyz_count_matches(contents@),
        res matches Ok(m) ==> {
            &&& m.wf()
            &&& m.coords_bounded()
            &&& m.natoms as int == spec_xyz_natoms(contents@)
            &&& m.atoms@.map_values(|a: String| a@) == spec_xyz_symbols(contents@)
            &&& m.coords@ == spec_xyz_coords(contents@)
            &&& m.q == 0
            &&& m.info@ == spec_xyz_info(contents@)
            &&& m.name@ == Seq::<char>::empty()
        },
        res matches Err(e) ==> e == (if !spec_xyz_ok(contents@) {
            MambaError::ParseError
        } else {
            MambaError::AtomCountMismatch
        }),
{
    let lines = split_lines(contents);
    let ghost lviews = line_views(lines@);
    let trimmed = trim(lines[0].as_str());
    let natoms: usize;
    match parse_uint(trimmed.as_str()) {
        Ok(v) => {
            natoms = v;
        },
        Err(_) => {
            return Err(MambaError::ParseError);
        },
    }
    let info = if lines.len() >= 2 {
        lines[1].clone()
    } else {
        String::new()
    };
    let mut atoms: Vec<String> = Vec::new();
    let mut coords: Vec<Coord> = Vec::new();
    let mut k: usize = 2;
    proof {
        if lviews.len() >= 2 {
            assert(lviews.subrange(2, 2).filter(nonblank_pred()) =~= Seq::<Seq<char>>::empty());
        }
    }
    while k < lines.len()
        invariant
            2 <= k,
            k <= lines@.len() || (k == 2 && atoms@.len() == 0 && coords@.len() == 0),
            lviews == line_views(lines@),
            lviews == spec_split_lines(contents@),
            lviews.len() >= 1,
            k <= lines@.len() ==> {
                let recs = lviews.subrange(2, k as int).filter(nonblank_pred());
                &&& atoms@.len() == recs.len()
                &&& coords@.len() == recs.len()
                &&& forall|w: int| 0 <= w < recs.len() ==> atom_line_ok(#[trigger] recs[w])
                &&& forall|w: int|
                    0 <= w < recs.len() ==> (#[trigger] atoms@[w])@ == spec_atom_symbol(recs[w])
                &&& forall|w: int|
                    0 <= w < recs.len() ==> (#[trigger] coords@[w]) == spec_atom_coord(recs[w])
                &&& forall|w: int|
                    0 <= w < coords@.len() ==> coord_in_range(#[trigger] coords@[w])
            },
        decreases lines@.len() - k,
    {
        let ghost recs = lviews.subrange(2, k as int).filter(nonblank_pred());
        proof {
            assert(lviews.subrange(2, k + 1) =~= lviews.subrange(2, k as int).push(
                lviews[k as int],
            ));
            lemma_filter_push(lviews.subrange(2, k as int), nonblank_pred(), lviews[k as int]);
            assert(lviews.skip(2) =~= lviews.subrange(2, k + 1) + lviews.skip(k + 1));
            Seq::<Seq<char>>::filter_distributes_over_add(
                lviews.subrange(2, k + 1),
                lviews.skip(k + 1),
                nonblank_pred(),
            );
            assert(lviews[k as int] == lines@[k as int]@);
        }
        if !blank_line(lines[k].as_str()) {
            proof {
                assert(spec_atom_records(lviews)[recs.len() as int] == lviews[k as int]);
            }
            let toks = tokens(lines[k].as_str());
            if toks.len() < 4 {
                proof {
                    assert(!atom_line_ok(lviews[k as int]));
                    assert(!spec_xyz_ok(contents@));
                }
                return Err(MambaError::ParseError);
            }
            let x: i64;
            match parse_coord(toks[1].as_str()) {
                Ok(v) => {
                    x = v;
                },
                Err(_) => {
                    proof {
                        assert(!atom_line_ok(lviews[k as int]));
                        assert(!spec_xyz_ok(contents@));
                    }
                    return Err(MambaError::ParseError);
                },
            }
            let y: i64;
            match parse_coord(toks[2].as_str()) {
                Ok(v) => {
                    y = v;
                },
                Err(_) => {
                    proof {
                        assert(!atom_line_ok(lviews[k as int]));
                        assert(!spec_xyz_ok(contents@));
                    }
                    return Err(MambaError::ParseError);
                },
            }
            let z: i64;
            match parse_coord(toks[3].as_str()) {
                Ok(v) => {
                    z = v;
                },
                Err(_) => {
                    proof {
                        assert(!atom_line_ok(lviews[k as int]));
                        assert(!spec_xyz_ok(contents@));
                    }
                    return Err(MambaError::ParseError);
                },
            }
            atoms.push(toks[0].clone());
            coords.push(Coord { x, y, z });
            proof {
                assert(atom_line_ok(lviews[k as int]));
                assert(spec_atom_symbol(lviews[k as int]) == toks@[0]@);
                assert(spec_atom_coord(lviews[k as int]) == Coord { x, y, z });
            }
        }
        k += 1;
    }
    proof {
        if lviews.len() > 2 {
            assert(lviews.subrange(2, lviews.len() as int) =~= lviews.skip(2));
        } else {
            assert(spec_atom_records(lviews).len() == 0);
            if lviews.len() == 2 {
                assert(lviews.subrange(2, 2).filter(nonblank_pred()) =~= Seq::<Seq<char>>::empty());
            }
        }
    }
    if natoms != atoms.len() {
        return Err(MambaError::AtomCountMismatch);
    }
    let m = XYZMolecule { natoms, atoms, coords, q: 0, info, name: String::new() };
    proof {
        assert(m.atoms@.map_values(|a: String| a@) =~~= spec_xyz_symbols(contents@));
        assert(m.coords@ =~= spec_xyz_coords(contents@));
    }
    Ok(m)
}

} // verus!
