//! Character classes and text building shared by the compiler stages.

use vstd::prelude::*;
use vstd::string::*;

verus! {

/// Whether a character beyond ASCII has the Unicode `Alphabetic` property.
pub uninterp spec fn unicode_alphabetic(c: char) -> bool;

/// Whether a character beyond ASCII is in one of the Unicode general
/// categories for numbers.
pub uninterp spec fn unicode_numeric(c: char) -> bool;

/// Whether a character beyond ASCII has the Unicode `White_Space` property.
pub uninterp spec fn unicode_white_space(c: char) -> bool;

/// Whether `c` is an ASCII letter.
pub open spec fn is_ascii_letter(c: char) -> bool {
    'a' <= c <= 'z' || 'A' <= c <= 'Z'
}

/// Whether `c` is one of the ten decimal digits.
pub open spec fn is_decimal_digit(c: char) -> bool {
    '0' <= c <= '9'
}

/// Whether `c` is alphabetic: an ASCII letter, or a character beyond ASCII
/// with the Unicode property.
pub open spec fn alphabetic(c: char) -> bool {
    is_ascii_letter(c) || (c > '\x7f' && unicode_alphabetic(c))
}

/// Whether `c` is alphabetic or numeric: an ASCII letter or digit, or a
/// character beyond ASCII with one of the two Unicode properties.
pub open spec fn alphanumeric(c: char) -> bool {
    if c <= '\x7f' {
        is_ascii_letter(c) || is_decimal_digit(c)
    } else {
        unicode_alphabetic(c) || unicode_numeric(c)
    }
}

/// Whether `c` is white space: a space, one of the five characters from
/// tab to carriage return, or a character beyond ASCII with the Unicode
/// property.
pub open spec fn white_space(c: char) -> bool {
    c == ' ' || '\t' <= c <= '\r' || (c > '\x7f' && unicode_white_space(c))
}

/// `char::is_alphabetic` of the standard library: true of the ASCII
/// letters, false of the rest of ASCII, and beyond ASCII a fixed property of
/// the character, named [`unicode_alphabetic`] in contracts.
pub assume_specification[ char::is_alphabetic ](c: char) -> (r: bool)
    ensures
        r == (is_ascii_letter(c) || (c > '\x7f' && unicode_alphabetic(c))),
;

/// `char::is_alphanumeric` of the standard library: true of the ASCII
/// letters and digits, false of the rest of ASCII, and beyond ASCII true of
/// what is alphabetic or numeric, the latter a fixed property of the
/// character, named [`unicode_numeric`] in contracts.
pub assume_specification[ char::is_alphanumeric ](c: char) -> (r: bool)
    ensures
        r == (if c <= '\x7f' {
            is_ascii_letter(c) || is_decimal_digit(c)
        } else {
            unicode_alphabetic(c) || unicode_numeric(c)
        }),
;

/// `char::is_whitespace` of the standard library: true of the space and of
/// the five characters from tab to carriage return, false of the rest of
/// ASCII, and beyond ASCII a fixed property of the character, named
/// [`unicode_white_space`] in contracts.
pub assume_specification[ char::is_whitespace ](c: char) -> (r: bool)
    ensures
        r == (c == ' ' || '\t' <= c <= '\r' || (c > '\x7f' && unicode_white_space(c))),
;

/// `String::push` of the standard library appends the character to the end
/// of the string.
pub assume_specification[ String::push ](s: &mut String, c: char)
    ensures
        final(s)@ == old(s)@.push(c),
;

/// `str == str` of the standard library holds exactly when both hold the
/// same characters.
pub assume_specification[ <str as PartialEq>::eq ](a: &str, b: &str) -> (r: bool)
    ensures
        r == (a@ == b@),
;

/// Decides [`is_decimal_digit`].
pub fn char_is_digit(c: char) -> (r: bool)
    ensures
        r == is_decimal_digit(c),
{
    '0' <= c && c <= '9'
}

/// The number that a run of decimal digits writes.
pub open spec fn decimal_value(digits: Seq<char>) -> nat
    decreases digits.len(),
{
    if digits.len() == 0 {
        0
    } else {
        decimal_value(digits.drop_last()) * 10 + (digits.last() as nat - '0' as nat) as nat
    }
}

/// The value of a run of decimal digits as a 64-bit signed literal: the number
/// written where it fits, and 0 where it does not.
pub open spec fn literal_value(digits: Seq<char>) -> i64 {
    if decimal_value(digits) <= i64::MAX {
        decimal_value(digits) as i64
    } else {
        0
    }
}

/// A longer run of digits never writes a smaller number.
pub proof fn lemma_decimal_value_grows(digits: Seq<char>, c: char)
    ensures
        decimal_value(digits.push(c)) >= decimal_value(digits),
        is_decimal_digit(c) ==> decimal_value(digits.push(c)) == decimal_value(digits) * 10 + (c as nat
            - '0' as nat),
{
    assert(digits.push(c).drop_last() =~= digits);
    assert(digits.push(c).last() == c);
}

/// What the standard library's `Debug` formatting of a string slice gives
/// for the text `s`: the text between double quotes, with escapes.
pub uninterp spec fn debug_text(s: Seq<char>) -> Seq<char>;

/// `<str as Debug>::fmt` of the standard library, run to the end: the
/// outcome is a function of the text alone, named [`debug_text`] in
/// contracts.
#[verifier::external_body]
pub(crate) fn quoted(s: &str) -> (text: String)
    ensures
        text@ == debug_text(s@),
{
    format!("{:?}", s)
}

/// The character that writes the decimal digit `d`.
pub open spec fn digit_char(d: nat) -> char {
    if d == 0 {
        '0'
    } else if d == 1 {
        '1'
    } else if d == 2 {
        '2'
    } else if d == 3 {
        '3'
    } else if d == 4 {
        '4'
    } else if d == 5 {
        '5'
    } else if d == 6 {
        '6'
    } else if d == 7 {
        '7'
    } else if d == 8 {
        '8'
    } else {
        '9'
    }
}

/// The decimal digits of `n`, most significant first, without leading zeros.
pub open spec fn decimal_digits(n: nat) -> Seq<char>
    decreases n,
{
    if n < 10 {
        seq![digit_char(n)]
    } else {
        decimal_digits(n / 10).push(digit_char(n % 10))
    }
}

/// The decimal text of an integer: a minus sign if it is negative, then the
/// digits of its magnitude.
pub open spec fn decimal_text(n: int) -> Seq<char> {
    if n < 0 {
        seq!['-'] + decimal_digits((-n) as nat)
    } else {
        decimal_digits(n as nat)
    }
}

/// The text `"true"` or `"false"`.
pub open spec fn bool_text(b: bool) -> Seq<char> {
    if b {
        "true"@
    } else {
        "false"@
    }
}

fn digit_to_char(d: u64) -> (c: char)
    requires
        d < 10,
    ensures
        c == digit_char(d as nat),
{
    if d == 0 {
        '0'
    } else if d == 1 {
        '1'
    } else if d == 2 {
        '2'
    } else if d == 3 {
        '3'
    } else if d == 4 {
        '4'
    } else if d == 5 {
        '5'
    } else if d == 6 {
        '6'
    } else if d == 7 {
        '7'
    } else if d == 8 {
        '8'
    } else {
        '9'
    }
}

/// Appends the decimal digits of `n` to `out`.
pub fn push_decimal_digits(out: &mut String, n: u64)
    ensures
        final(out)@ == old(out)@ + decimal_digits(n as nat),
    decreases n,
{
    if n >= 10 {
        push_decimal_digits(out, n / 10);
    }
    out.push(digit_to_char(n % 10));
    assert(out@ =~= old(out)@ + decimal_digits(n as nat));
}

/// Appends the decimal text of `n` to `out`.
pub fn push_decimal(out: &mut String, n: i64)
    ensures
        final(out)@ == old(out)@ + decimal_text(n as int),
{
    if n < 0 {
        out.push('-');
        let magnitude: u64 = if n == i64::MIN {
            9223372036854775808u64
        } else {
            (-n) as u64
        };
        push_decimal_digits(out, magnitude);
        assert(out@ =~= old(out)@ + decimal_text(n as int));
    } else {
        push_decimal_digits(out, n as u64);
    }
}

/// Appends `"true"` or `"false"` to `out`.
pub fn push_bool(out: &mut String, b: bool)
    ensures
        final(out)@ == old(out)@ + bool_text(b),
{
    if b {
        out.append("true");
    } else {
        out.append("false");
    }
}

} // verus!
