//! Character-level case folding and character classes, taken from std's
//! Unicode tables through trusted wrappers.
//!
//! The engine compares query and candidate text on folded characters, one
//! character at a time, so a folded text is exactly as long as the original
//! and every matched position indexes the original text directly.

use vstd::prelude::*;

verus! {

/// The lowercase folding of a character: the first character that
/// `char::to_lowercase` yields for it.
pub uninterp spec fn fold_char(c: char) -> char;

/// Whether `char::is_lowercase` holds of the character.
pub uninterp spec fn is_lower_char(c: char) -> bool;

/// Whether `char::is_uppercase` holds of the character.
pub uninterp spec fn is_upper_char(c: char) -> bool;

/// A sequence of characters, folded character by character.
pub open spec fn folded(s: Seq<char>) -> Seq<char> {
    s.map_values(|c: char| fold_char(c))
}

/// Relies on char::to_lowercase: the folding depends on the character alone,
/// and yields at least one character, so the `unwrap_or` arm never runs.
#[verifier::external_body]
fn lower_char(c: char) -> (r: char)
    ensures
        r == fold_char(c),
{
    c.to_lowercase().next().unwrap_or(c)
}

/// Relies on char::is_lowercase: the class depends on the character alone.
#[verifier::external_body]
pub(crate) fn char_is_lowercase(c: char) -> (r: bool)
    ensures
        r == is_lower_char(c),
{
    c.is_lowercase()
}

/// Relies on char::is_uppercase: the class depends on the character alone.
#[verifier::external_body]
pub(crate) fn char_is_uppercase(c: char) -> (r: bool)
    ensures
        r == is_upper_char(c),
{
    c.is_uppercase()
}

/// Folds every character of `s`.
pub(crate) fn fold_chars(s: &Vec<char>) -> (r: Vec<char>)
    ensures
        r@ == folded(s@),
{
    let mut r: Vec<char> = Vec::new();
    let mut i: usize = 0;
    while i < s.len()
        invariant
            i <= s@.len(),
            r@ == folded(s@.take(i as int)),
        decreases s@.len() - i,
    {
        r.push(lower_char(s[i]));
        proof {
            assert(r@ =~= folded(s@.take(i as int + 1)));
        }
        i = i + 1;
    }
    proof {
        assert(s@.take(s@.len() as int) == s@);
    }
    r
}

/// The characters of `s`, as a vector.
pub(crate) fn chars_of(s: &str) -> (r: Vec<char>)
    ensures
        r@ == s@,
{
    let n = s.unicode_len();
    let mut r: Vec<char> = Vec::new();
    let mut i: usize = 0;
    while i < n
        invariant
            n == s@.len(),
            i <= n,
            r@ == s@.take(i as int),
        decreases n - i,
    {
        r.push(s.get_char(i));
        proof {
            assert(r@ =~= s@.take(i as int + 1));
        }
        i = i + 1;
    }
    proof {
        assert(s@.take(n as int) == s@);
    }
    r
}

} // verus!
