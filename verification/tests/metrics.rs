use strmetrics::smr;
use strmetrics::smr::Metric;

#[test]
fn test_levenshtein() {
    let str1 = "kitten";
    let str2 = "sitting";
    let mut coeffs = [1, 1, 1];
    let mut dist = smr::levenshtein::distance(str1, str2, coeffs).unwrap_or_else(|| usize::MAX);
    assert_eq!(dist, 3);

    coeffs = [1, 1, 2];
    dist = smr::levenshtein::distance(str1, str2, coeffs).unwrap_or_else(|| usize::MAX);
    assert_eq!(dist, 11);

    let comparator = smr::StringComparator::Lev(str1, str2, coeffs);
    dist = comparator.distance().unwrap_or_else(|| usize::MAX);
    assert_eq!(dist, 11);
    println!("{:?}", comparator);
}

#[test]
fn test_damereau_levenshtein() {
    let str1 = "avery";
    let str2 = "garvey";
    let base_exp: usize = 2;
    let max_dist = base_exp
        .checked_pow(7)
        .unwrap_or_else(|| panic!("{}^{} overflows", base_exp, 7));
    let dist =
        smr::damereau_levenshtein::distance(str1, str2, max_dist).unwrap_or_else(|| usize::MAX);
    assert_eq!(dist, 3);
}
