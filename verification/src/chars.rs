//! Decoding a string into an indexable code-point buffer, once, so the
//! recurrences can address characters by position in constant time.

use vstd::prelude::*;

verus! {

/// Relies on `str::chars`: the iterator yields exactly the characters of
/// the string in order, so the collected buffer's view equals the
/// string's view.
#[verifier::external_body]
pub(crate) fn chars_vec(s: &str) -> (v: Vec<char>)
    ensures
        v@ == s@,
{
    s.chars().collect()
}

} // verus!
