//! Hamming distance: the mismatch count of two equal-length sequences.

use crate::chars::chars_vec;
use crate::model::{hamming_distance_spec, mismatch_count, reports};
use vstd::prelude::*;

verus! {

/// Number of positions where the two strings differ.
///
/// The metric is defined for equal-length operands only, so the caller
/// owes operands of the same character count; the result is always
/// present, and the optional shape only matches the other metrics of
/// this crate.
pub fn distance(str1: &str, str2: &str) -> (r: Option<usize>)
    requires
        str1@.len() == str2@.len(),
    ensures
        reports(r, Some(hamming_distance_spec(str1@, str2@))),
{
    let a = chars_vec(str1);
    let b = chars_vec(str2);
    let n = a.len();
    let mut count: usize = 0;
    let mut i: usize = 0;
    while i < n
        invariant
            i <= n,
            n == a@.len() == b@.len(),
            a@ == str1@,
            b@ == str2@,
            count <= i,
            count == mismatch_count(str1@, str2@, i as int),
        decreases n - i,
    {
        if a[i] != b[i] {
            count = count + 1;
        }
        i = i + 1;
    }
    Some(count)
}

} // verus!
