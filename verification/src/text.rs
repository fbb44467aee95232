//! Conversions between strings and character vectors.
//!
//! The parsing core works over characters; these two wrappers move between
//! the boundary's `&str`/`String` and the core's `Vec<char>`.

use vstd::prelude::*;

verus! {

/// Relies on str::chars: yields the characters of the slice, in order, which
/// are exactly the slice's view.
#[verifier::external_body]
pub fn chars_of(s: &str) -> (r: Vec<char>)
    ensures
        r@ == s@,
{
    s.chars().collect()
}

/// Relies on String's FromIterator over char: the built string holds exactly
/// the given characters, in order.
#[verifier::external_body]
pub fn string_from_chars(v: &Vec<char>) -> (r: String)
    ensures
        r@ == v@,
{
    v.iter().collect()
}

} // verus!
