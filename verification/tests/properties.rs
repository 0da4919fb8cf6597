use strmetrics::levenshtein;
use strmetrics::smr;
use strmetrics::smr::Metric;

#[test]
fn weighted_empty_operands() {
    assert_eq!(smr::levenshtein::distance("", "", [1, 1, 1]), Some(0));
    assert_eq!(smr::levenshtein::distance("", "abc", [7, 9, 4]), Some(3));
    assert_eq!(smr::levenshtein::distance("abc", "", [7, 9, 4]), Some(3));
}

#[test]
fn weighted_identity_on_concrete_values() {
    assert_eq!(smr::levenshtein::distance("a", "a", [5, 5, 5]), Some(0));
    assert_eq!(smr::levenshtein::distance("hello", "hello", [3, 4, 5]), Some(0));
}

#[test]
fn weighted_symmetry_with_equal_delete_insert() {
    let forward = smr::levenshtein::distance("kitten", "sitting", [2, 2, 3]);
    let backward = smr::levenshtein::distance("sitting", "kitten", [2, 2, 3]);
    assert_eq!(forward, backward);
}

#[test]
fn weighted_swap_exchanges_delete_and_insert() {
    let forward = smr::levenshtein::distance("ab", "xyz", [2, 5, 3]);
    let backward = smr::levenshtein::distance("xyz", "ab", [5, 2, 3]);
    assert_eq!(forward, backward);
}

#[test]
fn weighted_counts_code_points_not_bytes() {
    // One accented character differs: one substitution, not two byte edits.
    assert_eq!(smr::levenshtein::distance("h\u{e9}llo", "hello", [1, 1, 1]), Some(1));
}

#[test]
fn weighted_rolling_rows_match_wrapped_form() {
    let bare = levenshtein::distance("kitten", "sitting", &[1, 1, 1]);
    assert_eq!(bare, 3);
    let bare_weighted = levenshtein::distance("kitten", "sitting", &[1, 1, 2]);
    assert_eq!(bare_weighted, 11);
    // Two length-one operands never read past the seeded boundary rows:
    // the corner cell is the seeded origin itself.
    let single = levenshtein::distance("a", "b", &[1, 1, 1]);
    assert_eq!(single, 0);
}

#[test]
fn banded_empty_operands() {
    assert_eq!(smr::damereau_levenshtein::distance("", "xyz", 1), Some(3));
    assert_eq!(smr::damereau_levenshtein::distance("xyz", "", 1), Some(3));
    assert_eq!(smr::damereau_levenshtein::distance("", "", 0), Some(0));
}

#[test]
fn banded_bound_rejection_on_length_gap() {
    // The length difference alone (4) exceeds the bound.
    assert_eq!(smr::damereau_levenshtein::distance("ab", "abcdef", 3), None);
    assert_eq!(smr::damereau_levenshtein::distance("abcdef", "ab", 3), None);
}

#[test]
fn banded_never_answers_above_bound() {
    // The true distance (one substitution) exceeds the bound: absence,
    // even though the shorter operand is too short for any in-row check.
    assert_eq!(smr::damereau_levenshtein::distance("a", "b", 0), None);
    assert_eq!(smr::damereau_levenshtein::distance("a", "b", 1), Some(1));
    assert_eq!(smr::damereau_levenshtein::distance("abc", "axc", 0), None);
    assert_eq!(smr::damereau_levenshtein::distance("abc", "axc", 1), Some(1));
    let via_dispatch = smr::StringComparator::DamLev("a", "b", 0);
    assert_eq!(via_dispatch.distance(), None);
}

#[test]
fn banded_survives_giant_bound() {
    // The band edges are clamped, never wrapped, however large the bound.
    assert_eq!(smr::damereau_levenshtein::distance("avery", "garvey", usize::MAX), Some(3));
}

#[test]
fn banded_monotonicity_around_true_distance() {
    // True distance of "ab" and "ba" is one transposition.
    assert_eq!(smr::damereau_levenshtein::distance("ab", "ba", 0), None);
    assert_eq!(smr::damereau_levenshtein::distance("ab", "ba", 1), Some(1));
    assert_eq!(smr::damereau_levenshtein::distance("ab", "ba", 5), Some(1));
}

#[test]
fn banded_transposition_beats_plain_levenshtein() {
    // The plain unit-cost, full-grid Levenshtein distance of "ab" and
    // "ba" is 2; the adjacent swap brings the transposition metric to 1.
    let with_swap = smr::damereau_levenshtein::distance("ab", "ba", 8).unwrap();
    assert_eq!(with_swap, 1);
    assert!(with_swap <= 2);
}

#[test]
fn hamming_counts_mismatched_positions() {
    assert_eq!(smr::hamming::distance("", ""), Some(0));
    assert_eq!(smr::hamming::distance("abc", "abc"), Some(0));
    assert_eq!(smr::hamming::distance("karolin", "kathrin"), Some(3));
    assert_eq!(smr::hamming::distance("\u{3b1}\u{3b2}\u{3b3}", "\u{3b1}\u{3b2}\u{3b4}"), Some(1));
}

#[test]
fn dispatcher_routes_each_variant() {
    let lev = smr::StringComparator::Lev("kitten", "sitting", [1, 1, 1]);
    assert_eq!(lev.distance(), Some(3));

    let damlev = smr::StringComparator::DamLev("avery", "garvey", 128);
    assert_eq!(damlev.distance(), Some(3));

    let damlev_rejected = smr::StringComparator::DamLev("ab", "abcdef", 3);
    assert_eq!(damlev_rejected.distance(), None);

    let ham = smr::StringComparator::Ham("karolin", "kathrin");
    assert_eq!(ham.distance(), Some(3));
}
