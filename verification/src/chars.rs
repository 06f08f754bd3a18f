//! Character classes used by the lexer.

use vstd::prelude::*;

verus! {

/// `c` is one of the ASCII decimal digits `0` to `9`.
pub open spec fn is_digit(c: char) -> bool {
    '0' <= c && c <= '9'
}

/// `c` is an ASCII letter, upper or lower case.
pub open spec fn is_alpha(c: char) -> bool {
    ('a' <= c && c <= 'z') || ('A' <= c && c <= 'Z')
}

/// `c` is an ASCII letter or an ASCII decimal digit.
pub open spec fn is_alphanumeric(c: char) -> bool {
    is_digit(c) || is_alpha(c)
}

/// Decides whether `c` is an ASCII decimal digit.
pub fn char_is_digit(c: char) -> (r: bool)
    ensures
        r == is_digit(c),
{
    '0' <= c && c <= '9'
}

/// Decides whether `c` is an ASCII letter.
pub fn char_is_alpha(c: char) -> (r: bool)
    ensures
        r == is_alpha(c),
{
    ('a' <= c && c <= 'z') || ('A' <= c && c <= 'Z')
}

/// Decides whether `c` is an ASCII letter or digit.
pub fn char_is_alphanumeric(c: char) -> (r: bool)
    ensures
        r == is_alphanumeric(c),
{
    char_is_digit(c) || char_is_alpha(c)
}

} // verus!
