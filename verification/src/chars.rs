//! Character classes of the command grammar.
//!
//! Command names are runs of alphabetic characters, tokens are separated by
//! whitespace and numbers are runs of ASCII decimal digits. The first two
//! classes are the ones of `char::is_alphabetic` and `char::is_whitespace`;
//! inside ASCII they are spelled out here, beyond ASCII they are whatever the
//! Unicode tables say.

use vstd::prelude::*;

verus! {

/// For a character beyond ASCII, whether it has the Unicode `Alphabetic`
/// property, as `char::is_alphabetic` reports it.
pub uninterp spec fn unicode_alphabetic(c: char) -> bool;

/// For a character beyond ASCII, whether it has the Unicode `White_Space`
/// property, as `char::is_whitespace` reports it.
pub uninterp spec fn unicode_whitespace(c: char) -> bool;

/// Whether `c` is one of the 52 ASCII letters.
pub open spec fn is_ascii_letter(c: char) -> bool {
    ('a' <= c && c <= 'z') || ('A' <= c && c <= 'Z')
}

/// Whether `c` is an ASCII whitespace character: the space, or one of the
/// five controls from horizontal tab to carriage return.
pub open spec fn is_ascii_blank(c: char) -> bool {
    c == ' ' || ('\x09' <= c && c <= '\x0d')
}

/// Whether `c` may stand in a command name.
pub open spec fn is_name_char(c: char) -> bool {
    if c <= '\x7f' {
        is_ascii_letter(c)
    } else {
        unicode_alphabetic(c)
    }
}

/// Whether `c` separates tokens.
pub open spec fn is_separator(c: char) -> bool {
    if c <= '\x7f' {
        is_ascii_blank(c)
    } else {
        unicode_whitespace(c)
    }
}

/// Whether `c` is one of the ten ASCII decimal digits.
pub open spec fn is_digit(c: char) -> bool {
    '0' <= c && c <= '9'
}

/// The number that the decimal digit `c` stands for.
pub open spec fn digit_value(c: char) -> nat
    recommends
        is_digit(c),
{
    (c as int - '0' as int) as nat
}

/// The predicate "is alphabetic", as a value that scans can take.
pub open spec fn alphabetic() -> spec_fn(char) -> bool {
    |c: char| is_name_char(c)
}

/// The predicate "is whitespace", as a value that scans can take.
pub open spec fn whitespace() -> spec_fn(char) -> bool {
    |c: char| is_separator(c)
}

/// The predicate "is a decimal digit", as a value that scans can take.
pub open spec fn digit() -> spec_fn(char) -> bool {
    |c: char| is_digit(c)
}

/// Trusted: std's `char::is_alphabetic`. Inside ASCII it answers `true` for
/// the letters `a` to `z` and `A` to `Z` and for nothing else; beyond ASCII
/// it looks the character up in the Unicode `Alphabetic` table, and that
/// answer is only given a name here.
pub assume_specification[ char::is_alphabetic ](c: char) -> (b: bool)
    ensures
        b == if c <= '\x7f' {
            is_ascii_letter(c)
        } else {
            unicode_alphabetic(c)
        },
;

/// Trusted: std's `char::is_whitespace`. Inside ASCII it answers `true` for
/// the space and for the controls U+0009 to U+000D and for nothing else;
/// beyond ASCII it looks the character up in the Unicode `White_Space`
/// table, and that answer is only given a name here.
pub assume_specification[ char::is_whitespace ](c: char) -> (b: bool)
    ensures
        b == if c <= '\x7f' {
            is_ascii_blank(c)
        } else {
            unicode_whitespace(c)
        },
;

/// Tests whether `c` is an ASCII decimal digit.
pub fn is_ascii_digit(c: char) -> (b: bool)
    ensures
        b == is_digit(c),
{
    '0' <= c && c <= '9'
}

/// The number that the decimal digit `c` stands for.
pub fn digit_to_number(c: char) -> (v: u8)
    requires
        is_digit(c),
    ensures
        v == digit_value(c),
        v <= 9,
{
    (c as u32 - '0' as u32) as u8
}

} // verus!
