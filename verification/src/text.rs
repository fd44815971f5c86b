//! The two operations on standard strings that the lexer needs and that
//! have no verified counterpart: both are believed, not proved.

use vstd::prelude::*;

verus! {

/// `String::push`: appends one character to the end of the string. The
/// contract claims that the string's characters afterwards are the old ones
/// followed by `ch`.
#[verifier::external_body]
pub(crate) fn push_char(s: &mut String, ch: char)
    ensures
        final(s)@ == old(s)@.push(ch),
{
    s.push(ch)
}

/// `==` on `str`: the contract claims that two string slices compare equal
/// exactly when they hold the same characters.
#[verifier::external_body]
pub(crate) fn str_eq(a: &str, b: &str) -> (r: bool)
    ensures
        r == (a@ == b@),
{
    a == b
}

} // verus!
