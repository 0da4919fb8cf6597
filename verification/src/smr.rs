//! The metric components and the dispatching request type.

pub mod damereau_levenshtein;
pub mod hamming;
pub mod levenshtein;

use crate::model::{banded_distance_spec, hamming_distance_spec, reports, weighted_distance_spec,
    weighted_fits};
use vstd::prelude::*;

verus! {

/// A distance metric: one operation answering either a distance or the
/// marker that no answer exists within the metric's own bound.
pub trait Metric {
    /// The request is one the metric is defined and computable for.
    spec fn wf(&self) -> bool;

    fn distance(&self) -> (r: Option<usize>)
        requires
            self.wf(),
    ;
}

/// A self-contained comparison request: which metric to run and the
/// operand snapshot to run it on. Immutable once constructed, so a
/// request is fully self-describing and replayable.
#[derive(Debug, PartialEq, Eq, PartialOrd, Ord, Clone, Copy)]
pub enum StringComparator {
    /// Weighted edit distance with `[delete, insert, substitute]` weights.
    Lev(&'static str, &'static str, [usize; 3]),
    /// Banded transposition distance under a caller-supplied bound.
    DamLev(&'static str, &'static str, usize),
    /// Equal-length mismatch count; such a request may only be built
    /// from operands of the same character count.
    Ham(&'static str, &'static str),
}

impl Metric for StringComparator {
    open spec fn wf(&self) -> bool {
        match *self {
            StringComparator::Lev(s1, s2, c) => weighted_fits(
                s1@,
                s2@,
                c[0] as int,
                c[1] as int,
                c[2] as int,
            ),
            StringComparator::DamLev(s1, s2, _) => s1@.len() + s2@.len() < usize::MAX,
            StringComparator::Ham(s1, s2) => s1@.len() == s2@.len(),
        }
    }

    /// Route the request to its metric; the answer is exactly the
    /// matching model-level distance.
    fn distance(&self) -> (r: Option<usize>)
        ensures
            reports(
                r,
                match *self {
                    StringComparator::Lev(s1, s2, c) => Some(
                        weighted_distance_spec(s1@, s2@, c[0] as int, c[1] as int, c[2] as int),
                    ),
                    StringComparator::DamLev(s1, s2, k) => banded_distance_spec(
                        s1@,
                        s2@,
                        k as int,
                    ),
                    StringComparator::Ham(s1, s2) => Some(hamming_distance_spec(s1@, s2@)),
                },
            ),
    {
        match *self {
            StringComparator::Lev(str1, str2, coeffs) => levenshtein::distance(
                str1,
                str2,
                coeffs,
            ),
            StringComparator::DamLev(str1, str2, max_dist) => damereau_levenshtein::distance(
                str1,
                str2,
                max_dist,
            ),
            StringComparator::Ham(str1, str2) => hamming::distance(str1, str2),
        }
    }
}

} // verus!
