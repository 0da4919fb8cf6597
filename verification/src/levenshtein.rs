//! The weighted edit-distance recurrence over two rolling rows.

use crate::chars::chars_vec;
use crate::model::{cell_fits, weighted_distance_spec, weighted_fits, weighted_grid};
use vstd::prelude::*;

verus! {

/// Weighted edit distance between two non-empty strings, with
/// per-operation weights `coeffs = [delete, insert, substitute]`.
///
/// The answer is the corner cell of [`weighted_grid`], computed with two
/// same-width rows cycled by move, never a full table. The caller owes
/// non-empty operands (the empty-operand base cases live with
/// [`crate::smr::levenshtein`]) and a computation that stays within the
/// machine word ([`weighted_fits`]), which is all practical inputs.
pub fn distance(str1: &str, str2: &str, coeffs: &[usize; 3]) -> (r: usize)
    requires
        str1@.len() >= 1,
        str2@.len() >= 1,
        weighted_fits(str1@, str2@, coeffs[0] as int, coeffs[1] as int, coeffs[2] as int),
    ensures
        r == weighted_distance_spec(
            str1@,
            str2@,
            coeffs[0] as int,
            coeffs[1] as int,
            coeffs[2] as int,
        ),
{
    let c_del = coeffs[0];
    let c_ins = coeffs[1];
    let c_sub = coeffs[2];
    let a = chars_vec(str1);
    let b = chars_vec(str2);
    let m = a.len();
    let n = b.len();
    let mut prev: Vec<usize> = Vec::new();
    let mut j: usize = 0;
    while j < n
        invariant
            j <= n <= usize::MAX,
            prev@.len() == j,
            forall|t: int| 0 <= t < j ==> prev@[t] == t,
        decreases n - j,
    {
        prev.push(j);
        j = j + 1;
    }
    let mut curr: Vec<usize> = Vec::new();
    j = 0;
    while j < n
        invariant
            j <= n,
            curr@.len() == j,
        decreases n - j,
    {
        curr.push(0);
        j = j + 1;
    }
    let mut r: usize = 0;
    while r < m - 1
        invariant
            1 <= m == str1@.len(),
            1 <= n == str2@.len(),
            a@ == str1@,
            b@ == str2@,
            m == a@.len(),
            n == b@.len(),
            r <= m - 1,
            prev@.len() == n,
            curr@.len() == n,
            weighted_fits(str1@, str2@, c_del as int, c_ins as int, c_sub as int),
            forall|t: int|
                0 <= t < n ==> prev@[t] == weighted_grid(
                    str1@,
                    str2@,
                    c_del as int,
                    c_ins as int,
                    c_sub as int,
                    r as nat,
                    t as nat,
                ),
        decreases m - 1 - r,
    {
        let row = r + 1;
        curr.set(0, row);
        assert(curr@[0] == weighted_grid(
            str1@,
            str2@,
            c_del as int,
            c_ins as int,
            c_sub as int,
            row as nat,
            0,
        ));
        let mut jj: usize = 0;
        while jj < n - 1
            invariant
                1 <= row,
                row < m == str1@.len(),
                1 <= n == str2@.len(),
                a@ == str1@,
                b@ == str2@,
                m == a@.len(),
                n == b@.len(),
                jj <= n - 1,
                prev@.len() == n,
                curr@.len() == n,
                weighted_fits(str1@, str2@, c_del as int, c_ins as int, c_sub as int),
                forall|t: int|
                    0 <= t < n ==> prev@[t] == weighted_grid(
                        str1@,
                        str2@,
                        c_del as int,
                        c_ins as int,
                        c_sub as int,
                        (row - 1) as nat,
                        t as nat,
                    ),
                forall|t: int|
                    0 <= t <= jj ==> curr@[t] == weighted_grid(
                        str1@,
                        str2@,
                        c_del as int,
                        c_ins as int,
                        c_sub as int,
                        row as nat,
                        t as nat,
                    ),
            decreases n - 1 - jj,
        {
            let col = jj + 1;
            proof {
                assert(cell_fits(
                    str1@,
                    str2@,
                    c_del as int,
                    c_ins as int,
                    c_sub as int,
                    row as nat,
                    col as nat,
                ));
            }
            let up = prev[col];
            let left = curr[jj];
            let diag = prev[jj];
            let del = (up + 1) * c_del;
            let ins = (left + 1) * c_ins;
            let sub = (if a[row - 1] == b[jj] {
                diag
            } else {
                diag + 1
            }) * c_sub;
            let lesser = if del <= ins {
                del
            } else {
                ins
            };
            let v = if lesser <= sub {
                lesser
            } else {
                sub
            };
            curr.set(col, v);
            assert(curr@[col as int] == weighted_grid(
                str1@,
                str2@,
                c_del as int,
                c_ins as int,
                c_sub as int,
                row as nat,
                col as nat,
            ));
            jj = col;
        }
        let tmp = prev;
        prev = curr;
        curr = tmp;
        r = row;
    }
    let result = prev[n - 1];
    assert(result == weighted_distance_spec(
        str1@,
        str2@,
        c_del as int,
        c_ins as int,
        c_sub as int,
    ));
    result
}

} // verus!
