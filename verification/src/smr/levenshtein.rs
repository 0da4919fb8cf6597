//! Weighted edit distance with the empty-operand base cases in front of
//! the rolling-row recurrence.

use crate::model::{reports, weighted_distance_spec, weighted_fits};
use vstd::prelude::*;
use vstd::string::StrSliceExecFns;

verus! {

/// Weighted edit distance between `str1` and `str2` with per-operation
/// weights `coeffs = [delete, insert, substitute]`.
///
/// An empty operand answers the other operand's length outright, whatever
/// the weights: the boundary rows of the grid are unit-cost by design.
/// The answer is always present; the optional shape only matches the
/// other metrics of this crate. The one precondition is the machine
/// limit [`weighted_fits`]: the weighted cell candidates must fit in
/// `usize`, which holds of all practical weights and lengths.
pub fn distance(str1: &str, str2: &str, coeffs: [usize; 3]) -> (r: Option<usize>)
    requires
        weighted_fits(str1@, str2@, coeffs[0] as int, coeffs[1] as int, coeffs[2] as int),
    ensures
        reports(
            r,
            Some(
                weighted_distance_spec(
                    str1@,
                    str2@,
                    coeffs[0] as int,
                    coeffs[1] as int,
                    coeffs[2] as int,
                ),
            ),
        ),
{
    if str1.unicode_len() == 0 {
        return Some(str2.unicode_len());
    }
    if str2.unicode_len() == 0 {
        return Some(str1.unicode_len());
    }
    Some(crate::levenshtein::distance(str1, str2, &coeffs))
}

} // verus!
