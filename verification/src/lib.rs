//! String-similarity metrics: weighted edit distance, banded
//! Damerau-Levenshtein distance with adjacent transpositions, and a
//! Hamming-style mismatch count, behind one dispatching request type.

pub mod chars;
pub mod laws;
pub mod levenshtein;
pub mod model;
pub mod smr;
