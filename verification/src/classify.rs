//! Character classification: the pure predicates that the tokenizer
//! dispatches on.
//!
//! The Unicode-aware classes (alphabetic, alphanumeric, whitespace) are
//! supplied by the standard library; their exact extensions are named by
//! uninterpreted spec functions rather than restated.  The decimal-digit
//! class and the fixed operator characters are small enough to state
//! directly.

use vstd::prelude::*;

verus! {

/// The set of characters that `char::is_alphabetic` accepts.
pub uninterp spec fn alphabetic(c: char) -> bool;

/// The set of characters that `char::is_alphanumeric` accepts.
pub uninterp spec fn alphanumeric(c: char) -> bool;

/// The set of characters that `char::is_whitespace` accepts.
pub uninterp spec fn unicode_whitespace(c: char) -> bool;

/// Relies on `char::is_alphabetic`: the result depends on the character
/// alone (the host's Unicode alphabetic classification).
#[verifier::external_body]
pub(crate) fn char_is_alphabetic(c: char) -> (r: bool)
    ensures
        r == alphabetic(c),
{
    c.is_alphabetic()
}

/// Relies on `char::is_alphanumeric`: the result depends on the character
/// alone (the host's Unicode alphanumeric classification).
#[verifier::external_body]
pub(crate) fn char_is_alphanumeric(c: char) -> (r: bool)
    ensures
        r == alphanumeric(c),
{
    c.is_alphanumeric()
}

/// Relies on `char::is_whitespace`: the result depends on the character
/// alone (the host's Unicode whitespace classification).
#[verifier::external_body]
pub(crate) fn char_is_whitespace(c: char) -> (r: bool)
    ensures
        r == unicode_whitespace(c),
{
    c.is_whitespace()
}

/// A decimal digit, `'0'` through `'9'`.
pub open spec fn is_digit_char(c: char) -> bool {
    48 <= c as u32 && c as u32 <= 57
}

/// A character that may start an identifier: alphabetic or `'_'`.
pub open spec fn is_word_start(c: char) -> bool {
    alphabetic(c) || c == '_'
}

/// A character that may continue an identifier: alphanumeric or `'_'`.
pub open spec fn is_word_continue(c: char) -> bool {
    alphanumeric(c) || c == '_'
}

/// A character skipped between tokens.
pub open spec fn is_space(c: char) -> bool {
    unicode_whitespace(c)
}

/// A character that may continue a numeric literal: a digit or `'.'`.
pub open spec fn is_number_continue(c: char) -> bool {
    is_digit_char(c) || c == '.'
}

/// A character that is a complete one-character token by itself.
pub open spec fn is_single_char_token(c: char) -> bool {
    c == '=' || c == '+' || c == '-' || c == '*' || c == '/' || c == '^' || c == ';' || c == '('
        || c == ')'
}

/// Decides `is_digit_char`.
pub fn digit_char(c: char) -> (r: bool)
    ensures
        r == is_digit_char(c),
{
    let v: u32 = c as u32;
    48 <= v && v <= 57
}

/// Decides `is_space`.
pub fn space_char(c: char) -> (r: bool)
    ensures
        r == is_space(c),
{
    char_is_whitespace(c)
}

/// Decides `is_word_continue`.
pub fn word_continue_char(c: char) -> (r: bool)
    ensures
        r == is_word_continue(c),
{
    char_is_alphanumeric(c) || c == '_'
}

/// Decides `is_number_continue`.
pub fn number_continue_char(c: char) -> (r: bool)
    ensures
        r == is_number_continue(c),
{
    digit_char(c) || c == '.'
}

} // verus!
