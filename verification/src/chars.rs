//! Character classes of the lexical grammar.

use vstd::prelude::*;

verus! {

/// What `char::is_whitespace` answers for `c`: whether Unicode counts `c` as
/// white space.
pub uninterp spec fn unicode_whitespace(c: char) -> bool;

/// What `char::is_alphabetic` answers for `c`: whether Unicode counts `c` as
/// alphabetic.
pub uninterp spec fn unicode_alphabetic(c: char) -> bool;

/// What `char::is_numeric` answers for `c`: whether Unicode counts `c` as
/// numeric.
pub uninterp spec fn unicode_numeric(c: char) -> bool;

/// `char::is_whitespace` is taken on trust to be a function of the character
/// alone; its answer is named `unicode_whitespace` and nothing more is claimed
/// of it.
pub assume_specification[ char::is_whitespace ](c: char) -> (b: bool)
    ensures
        b == unicode_whitespace(c),
;

/// `char::is_alphabetic` is taken on trust to be a function of the character
/// alone; its answer is named `unicode_alphabetic` and nothing more is claimed
/// of it.
pub assume_specification[ char::is_alphabetic ](c: char) -> (b: bool)
    ensures
        b == unicode_alphabetic(c),
;

/// `char::is_alphanumeric` is taken on trust to answer as its documentation
/// says: true exactly where `char::is_alphabetic` or `char::is_numeric` is
/// true of the same character.
pub assume_specification[ char::is_alphanumeric ](c: char) -> (b: bool)
    ensures
        b == (unicode_alphabetic(c) || unicode_numeric(c)),
;

/// The ten decimal digits `0` to `9`.
pub open spec fn is_digit(c: char) -> bool {
    '0' <= c && c <= '9'
}

/// The number that a decimal digit stands for.
pub open spec fn digit_value(c: char) -> u8
    recommends
        is_digit(c),
{
    (c as int - '0' as int) as u8
}

/// The character that writes the decimal digit of value `digit`.
pub open spec fn digit_char(digit: u8) -> char
    recommends
        digit <= 9,
{
    ('0' as int + digit as int) as char
}

/// Characters that separate lexemes and produce nothing: Unicode white space
/// and the line feed.
pub open spec fn is_blank(c: char) -> bool {
    unicode_whitespace(c) || c == '\n'
}

/// Characters that may begin an identifier or keyword.
pub open spec fn starts_word(c: char) -> bool {
    c == '_' || unicode_alphabetic(c)
}

/// Characters that may continue an identifier or keyword: whatever may
/// begin one, and numeric characters.
pub open spec fn continues_word(c: char) -> bool {
    unicode_alphabetic(c) || unicode_numeric(c) || c == '_'
}

/// Tests whether `c` is one of the ten decimal digits.
pub fn decimal_digit(c: char) -> (b: bool)
    ensures
        b == is_digit(c),
{
    '0' <= c && c <= '9'
}

/// Converts a decimal digit to the number it stands for.
pub fn decimal_value(c: char) -> (d: u8)
    requires
        is_digit(c),
    ensures
        d == digit_value(c),
        d <= 9,
{
    (c as u8) - ('0' as u8)
}

} // verus!
