//! Character classes and caseless prefix matching.

use vstd::prelude::*;

verus! {

/// What char::is_alphanumeric returns for a character.
pub uninterp spec fn alphanumeric(c: char) -> bool;

/// Relies on char::is_alphanumeric: Unicode alphabetic or numeric.
#[verifier::external_body]
fn is_alphanumeric(c: char) -> (r: bool)
    ensures
        r == alphanumeric(c),
{
    c.is_alphanumeric()
}

/// A word character: alphanumeric, `_` or `-`.
pub open spec fn is_word_char(c: char) -> bool {
    alphanumeric(c) || c == '_' || c == '-'
}

/// A character that may stand in a char prefix: not a space, tab or newline.
pub open spec fn is_prefix_char(c: char) -> bool {
    c != ' ' && c != '\n' && c != '\t'
}

/// Whether `ch` is a word character.
pub fn char_is_word(ch: char) -> (r: bool)
    ensures
        r == is_word_char(ch),
{
    is_alphanumeric(ch) || ch == '_' || ch == '-'
}

/// Whether `ch` may stand in a char prefix.
pub fn char_is_char_prefix(ch: char) -> (r: bool)
    ensures
        r == is_prefix_char(ch),
{
    ch != ' ' && ch != '\n' && ch != '\t'
}

/// What caseless::default_caseless_match_str returns for two strings.
pub uninterp spec fn caseless_eq(a: Seq<char>, b: Seq<char>) -> bool;

/// Relies on caseless::default_caseless_match_str: Unicode default caseless
/// matching of two strings, a function of their characters.
#[verifier::external_body]
pub(crate) fn caseless_match(a: &str, b: &str) -> (r: bool)
    ensures
        r == caseless_eq(a@, b@),
{
    caseless::default_caseless_match_str(a, b)
}

/// `source` starts with `s` under caseless matching: its first `|s|`
/// characters match `s`.
pub open spec fn caseless_starts_with(source: Seq<char>, s: Seq<char>) -> bool {
    s.len() <= source.len() && caseless_eq(source.take(s.len() as int), s)
}

/// Whether `source` starts with `s` under caseless matching.
pub fn starts_with(source: &str, s: &str) -> (r: bool)
    ensures
        r == caseless_starts_with(source@, s@),
{
    let n = s.unicode_len();
    let m = source.unicode_len();
    if n > m {
        return false;
    }
    let part = source.substring_char(0, n);
    caseless_match(part, s)
}

} // verus!
