//! Conversions between strings and their character sequences, used where the
//! library builds or consumes text character by character.

use vstd::prelude::*;

verus! {

/// Relies on str::chars: iterating a string yields exactly its characters in
/// order.
#[verifier::external_body]
pub(crate) fn chars_of(s: &str) -> (r: Vec<char>)
    ensures
        r@ == s@,
{
    s.chars().collect()
}

/// Relies on str::chars and Extend for Vec: appending a string's characters
/// appends exactly its view.
#[verifier::external_body]
pub(crate) fn push_str_chars(out: &mut Vec<char>, s: &str)
    ensures
        final(out)@ == old(out)@ + s@,
{
    out.extend(s.chars());
}

/// Relies on String implementing FromIterator over char: collecting
/// characters builds the string of exactly those characters in order.
#[verifier::external_body]
pub(crate) fn string_from_chars(v: &Vec<char>) -> (r: String)
    ensures
        r@ == v@,
{
    v.iter().collect()
}

} // verus!
