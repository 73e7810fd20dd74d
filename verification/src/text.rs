//! Text helpers shared by the stages: the character classes of the source
//! language, the decimal notation of integers, and lines and columns.

use vstd::prelude::*;
use vstd::string::*;

verus! {

/// Whether `c` has Unicode's Alphabetic property, as `char::is_alphabetic` reports it.
pub uninterp spec fn alphabetic(c: char) -> bool;

/// Whether `c` is alphabetic or numeric in Unicode's sense, as `char::is_alphanumeric` reports it.
pub uninterp spec fn alphanumeric(c: char) -> bool;

/// Whether `c` has Unicode's White_Space property, as `char::is_whitespace` reports it.
pub uninterp spec fn whitespace(c: char) -> bool;

/// `char::is_alphabetic` depends on its argument alone; its result is named `alphabetic`.
pub assume_specification[ char::is_alphabetic ](c: char) -> (b: bool)
    ensures
        b == alphabetic(c),
;

/// `char::is_alphanumeric` depends on its argument alone; its result is named `alphanumeric`.
pub assume_specification[ char::is_alphanumeric ](c: char) -> (b: bool)
    ensures
        b == alphanumeric(c),
;

/// `char::is_whitespace` depends on its argument alone; its result is named `whitespace`.
pub assume_specification[ char::is_whitespace ](c: char) -> (b: bool)
    ensures
        b == whitespace(c),
;

/// `String::push` appends one character to the end of the string.
pub assume_specification[ std::string::String::push ](s: &mut std::string::String, c: char)
    ensures
        final(s)@ == old(s)@.push(c),
;

/// A character of the source with the classes that Unicode gives it.
#[derive(Debug, Clone, Copy, PartialEq, Eq, Structural)]
pub struct Glyph {
    pub ch: char,
    pub alphabetic: bool,
    pub alphanumeric: bool,
    pub whitespace: bool,
}

/// `c` with its classes as Unicode has them.
pub open spec fn glyph_of(c: char) -> Glyph {
    Glyph {
        ch: c,
        alphabetic: alphabetic(c),
        alphanumeric: alphanumeric(c),
        whitespace: whitespace(c),
    }
}

/// Classifies `c` as Unicode has it.
pub fn classify(c: char) -> (g: Glyph)
    ensures
        g == glyph_of(c),
{
    Glyph {
        ch: c,
        alphabetic: c.is_alphabetic(),
        alphanumeric: c.is_alphanumeric(),
        whitespace: c.is_whitespace(),
    }
}

/// An ASCII decimal digit.
pub open spec fn is_digit(c: char) -> bool {
    '0' <= c <= '9'
}

/// The value of a decimal digit.
pub open spec fn digit_value(c: char) -> int {
    c as int - '0' as int
}

/// The character of a digit value below ten.
pub open spec fn digit_char(d: int) -> char {
    (d + '0' as int) as char
}

/// The number that a run of decimal digits denotes, most significant first.
pub open spec fn decimal_value(digits: Seq<char>) -> nat
    decreases digits.len(),
{
    if digits.len() == 0 {
        0
    } else {
        (10 * decimal_value(digits.drop_last()) + digit_value(digits.last())) as nat
    }
}

/// Decimal notation of a natural number, without leading zeros.
pub open spec fn nat_text(n: nat) -> Seq<char>
    decreases n,
{
    if n < 10 {
        seq![digit_char(n as int)]
    } else {
        nat_text(n / 10).push(digit_char((n % 10) as int))
    }
}

/// Decimal notation of an integer, with a minus sign when negative.
pub open spec fn int_text(n: int) -> Seq<char> {
    if n < 0 {
        seq!['-'] + nat_text((-n) as nat)
    } else {
        nat_text(n as nat)
    }
}

/// Whether two strings hold the same characters.
pub fn str_eq(a: &str, b: &str) -> (same: bool)
    ensures
        same == (a@ == b@),
{
    let n = a.unicode_len();
    if b.unicode_len() != n {
        return false;
    }
    let mut i: usize = 0;
    while i < n
        invariant
            i <= n,
            n == a@.len(),
            n == b@.len(),
            forall|j: int| 0 <= j < i ==> a@[j] == b@[j],
        decreases n - i,
    {
        if a.get_char(i) != b.get_char(i) {
            return false;
        }
        i += 1;
    }
    assert(a@ =~= b@);
    true
}

pub fn is_decimal_digit(c: char) -> (b: bool)
    ensures
        b == is_digit(c),
{
    '0' <= c && c <= '9'
}

/// Appends the decimal notation of `n` to `out`.
pub fn push_nat(out: &mut String, n: u64)
    ensures
        final(out)@ == old(out)@ + nat_text(n as nat),
    decreases n,
{
    if n >= 10 {
        push_nat(out, n / 10);
    }
    let d: u8 = (n % 10) as u8;
    let c: char = (d + 48u8) as char;
    assert(c == digit_char((n % 10) as int));
    out.push(c);
    assert(final(out)@ =~= old(out)@ + nat_text(n as nat));
}

/// Appends the decimal notation of `n` to `out`.
pub fn push_int(out: &mut String, n: i64)
    ensures
        final(out)@ == old(out)@ + int_text(n as int),
{
    if n < 0 {
        out.push('-');
        let magnitude: u64 = ((-(n + 1)) as u64) + 1;
        push_nat(out, magnitude);
        assert(final(out)@ =~= old(out)@ + int_text(n as int));
    } else {
        push_nat(out, n as u64);
    }
}

/// The number of line feeds among the first `pos` characters of `text`:
/// the index, from zero, of the line that position `pos` is on.
pub open spec fn line_index(text: Seq<char>, pos: int) -> nat
    decreases pos,
{
    if pos <= 0 || pos > text.len() {
        0
    } else if text[pos - 1] == '\n' {
        line_index(text, pos - 1) + 1
    } else {
        line_index(text, pos - 1)
    }
}

/// The number of characters between position `pos` and the start of its
/// line: the index, from zero, of the column that position `pos` is on.
pub open spec fn column_index(text: Seq<char>, pos: int) -> nat
    decreases pos,
{
    if pos <= 0 || pos > text.len() || text[pos - 1] == '\n' {
        0
    } else {
        column_index(text, pos - 1) + 1
    }
}

/// The line and the column, both from zero, of position `pos` in `source`.
/// A position past the end counts as the end.
pub fn locate(source: &str, pos: usize) -> (place: (usize, usize))
    ensures
        pos <= source@.len() ==> place.0 == line_index(source@, pos as int) && place.1
            == column_index(source@, pos as int),
        pos > source@.len() ==> place.0 == line_index(source@, source@.len() as int) && place.1
            == column_index(source@, source@.len() as int),
{
    let mut line: usize = 0;
    let mut column: usize = 0;
    let mut seen: usize = 0;
    for c in it: source.chars()
        invariant
            it.seq() == source@,
            seen <= pos,
            seen <= it.index(),
            seen < pos ==> seen == it.index(),
            line <= seen,
            column <= seen,
            line == line_index(source@, seen as int),
            column == column_index(source@, seen as int),
    {
        if seen < pos {
            if c == '\n' {
                line += 1;
                column = 0;
            } else {
                column += 1;
            }
            seen += 1;
        }
    }
    (line, column)
}

} // verus!
