//! Laws of the metrics, stated over the models and proved once for all
//! inputs.

use crate::model::{band_cell, band_fill, band_from, band_loop, band_to, banded_distance_spec,
    cell_fits, lev_distance, osa_distance, osa_grid, row_min, weighted_distance_spec,
    weighted_fits, weighted_grid};
use vstd::arithmetic::mul::lemma_mul_nonnegative;
use vstd::arithmetic::power::{lemma_pow_increases, lemma_pow_positive, pow};
use vstd::prelude::*;

verus! {

/// Transposing the grid swaps the roles of the delete and insert costs:
/// cell `(i, j)` over `(a, b)` equals cell `(j, i)` over `(b, a)` with
/// the first two costs exchanged.
pub proof fn lemma_weighted_grid_swap(
    a: Seq<char>,
    b: Seq<char>,
    cd: int,
    ci: int,
    cs: int,
    i: nat,
    j: nat,
)
    ensures
        weighted_grid(a, b, cd, ci, cs, i, j) == weighted_grid(b, a, ci, cd, cs, j, i),
    decreases i + j,
{
    if i != 0 && j != 0 {
        lemma_weighted_grid_swap(a, b, cd, ci, cs, (i - 1) as nat, j);
        lemma_weighted_grid_swap(a, b, cd, ci, cs, i, (j - 1) as nat);
        lemma_weighted_grid_swap(a, b, cd, ci, cs, (i - 1) as nat, (j - 1) as nat);
    }
}

/// Swapping the operands swaps the roles of the delete and insert costs
/// and changes nothing else.
pub proof fn lemma_weighted_swap(a: Seq<char>, b: Seq<char>, cd: int, ci: int, cs: int)
    ensures
        weighted_distance_spec(a, b, cd, ci, cs) == weighted_distance_spec(b, a, ci, cd, cs),
{
    if a.len() != 0 && b.len() != 0 {
        lemma_weighted_grid_swap(a, b, cd, ci, cs, (a.len() - 1) as nat, (b.len() - 1) as nat);
    }
}

/// Symmetry: with equal delete and insert costs, the weighted distance
/// does not depend on the order of its operands.
pub proof fn lemma_weighted_symmetry(a: Seq<char>, b: Seq<char>, cd: int, ci: int, cs: int)
    requires
        cd == ci,
    ensures
        weighted_distance_spec(a, b, cd, ci, cs) == weighted_distance_spec(b, a, cd, ci, cs),
{
    lemma_weighted_swap(a, b, cd, ci, cs);
}

/// No cell of the grid is negative when no cost is.
pub proof fn lemma_weighted_grid_nonneg(
    a: Seq<char>,
    b: Seq<char>,
    cd: int,
    ci: int,
    cs: int,
    i: nat,
    j: nat,
)
    requires
        cd >= 0,
        ci >= 0,
        cs >= 0,
    ensures
        weighted_grid(a, b, cd, ci, cs, i, j) >= 0,
    decreases i + j,
{
    if i != 0 && j != 0 {
        lemma_weighted_grid_nonneg(a, b, cd, ci, cs, (i - 1) as nat, j);
        lemma_weighted_grid_nonneg(a, b, cd, ci, cs, i, (j - 1) as nat);
        lemma_weighted_grid_nonneg(a, b, cd, ci, cs, (i - 1) as nat, (j - 1) as nat);
        lemma_mul_nonnegative(weighted_grid(a, b, cd, ci, cs, (i - 1) as nat, j) + 1, cd);
        lemma_mul_nonnegative(weighted_grid(a, b, cd, ci, cs, i, (j - 1) as nat) + 1, ci);
        lemma_mul_nonnegative(weighted_grid(a, b, cd, ci, cs, (i - 1) as nat, (j - 1) as nat), cs);
        lemma_mul_nonnegative(
            weighted_grid(a, b, cd, ci, cs, (i - 1) as nat, (j - 1) as nat) + 1,
            cs,
        );
    }
}

/// Every diagonal cell over two equal operands is zero: matching is free,
/// whatever the substitute cost multiplies.
pub proof fn lemma_weighted_grid_diag_zero(a: Seq<char>, cd: int, ci: int, cs: int, i: nat)
    requires
        cd >= 0,
        ci >= 0,
        cs >= 0,
    ensures
        weighted_grid(a, a, cd, ci, cs, i, i) == 0,
    decreases i,
{
    if i != 0 {
        lemma_weighted_grid_diag_zero(a, cd, ci, cs, (i - 1) as nat);
        lemma_weighted_grid_nonneg(a, a, cd, ci, cs, (i - 1) as nat, i);
        lemma_weighted_grid_nonneg(a, a, cd, ci, cs, i, (i - 1) as nat);
        lemma_mul_nonnegative(weighted_grid(a, a, cd, ci, cs, (i - 1) as nat, i) + 1, cd);
        lemma_mul_nonnegative(weighted_grid(a, a, cd, ci, cs, i, (i - 1) as nat) + 1, ci);
    }
}

/// Identity: the weighted distance of any sequence to itself is zero,
/// whatever the (non-negative) costs.
pub proof fn lemma_weighted_identity(a: Seq<char>, cd: int, ci: int, cs: int)
    requires
        cd >= 0,
        ci >= 0,
        cs >= 0,
    ensures
        weighted_distance_spec(a, a, cd, ci, cs) == 0,
{
    if a.len() != 0 {
        lemma_weighted_grid_diag_zero(a, cd, ci, cs, (a.len() - 1) as nat);
    }
}

/// Base cases: against an empty operand the weighted distance is the
/// other operand's plain length, regardless of the weights.
pub proof fn lemma_weighted_base_cases(s: Seq<char>, cd: int, ci: int, cs: int)
    ensures
        weighted_distance_spec(Seq::<char>::empty(), s, cd, ci, cs) == s.len(),
        weighted_distance_spec(s, Seq::<char>::empty(), cd, ci, cs) == s.len(),
{
}

/// Bound rejection: when both operands are non-empty and their length
/// difference alone exceeds the bound, the banded distance is unknown.
/// (With an empty operand the metric answers the other length outright,
/// bound or no bound, so those inputs are left out here.)
pub proof fn lemma_banded_bound_rejection(a: Seq<char>, b: Seq<char>, k: int)
    requires
        a.len() >= 1,
        b.len() >= 1,
        (if a.len() >= b.len() {
            a.len() - b.len()
        } else {
            b.len() - a.len()
        }) > k,
    ensures
        banded_distance_spec(a, b, k) == None::<int>,
{
}

/// One multiplicative step of the geometric growth bound: a candidate
/// built from a value under `m * p` stays under `m * (p * (cc + 1))`.
proof fn lemma_growth_step(x: int, c: int, cc: int, m: int, p: int)
    requires
        0 <= x,
        x <= m * p,
        0 <= c <= cc,
        cc < m,
        1 <= p,
    ensures
        (x + 1) * c <= m * (p * (cc + 1)),
{
    assert(cc <= m * p) by (nonlinear_arith)
        requires
            0 <= cc,
            cc < m,
            1 <= p,
    ;
    assert((x + 1) * c <= (m * p + 1) * cc) by (nonlinear_arith)
        requires
            0 <= x,
            x <= m * p,
            0 <= c <= cc,
    ;
    assert((m * p + 1) * cc <= (m * p) * (cc + 1)) by (nonlinear_arith)
        requires
            cc <= m * p,
    ;
    assert((m * p) * (cc + 1) == m * (p * (cc + 1))) by (nonlinear_arith);
}

/// The grid grows at most geometrically: with every weight at most
/// `cc`, cell `(i, j)` is at most `(len(a) + len(b) + cc + 1)` times
/// `(cc + 1)` to the power `i + j`.
pub proof fn lemma_weighted_grid_upper(
    a: Seq<char>,
    b: Seq<char>,
    cd: int,
    ci: int,
    cs: int,
    cc: int,
    i: nat,
    j: nat,
)
    requires
        0 <= cd <= cc,
        0 <= ci <= cc,
        0 <= cs <= cc,
        i <= a.len() + b.len(),
        j <= a.len() + b.len(),
    ensures
        weighted_grid(a, b, cd, ci, cs, i, j) <= (a.len() + b.len() + cc + 1) * pow(
            cc + 1,
            (i + j) as nat,
        ),
    decreases i + j,
{
    reveal(pow);
    let m = a.len() + b.len() + cc + 1;
    lemma_pow_positive(cc + 1, (i + j) as nat);
    if i == 0 || j == 0 {
        assert(m * 1 <= m * pow(cc + 1, (i + j) as nat)) by (nonlinear_arith)
            requires
                0 < m,
                1 <= pow(cc + 1, (i + j) as nat),
        ;
    } else {
        let up = weighted_grid(a, b, cd, ci, cs, (i - 1) as nat, j);
        lemma_weighted_grid_upper(a, b, cd, ci, cs, cc, (i - 1) as nat, j);
        lemma_weighted_grid_nonneg(a, b, cd, ci, cs, (i - 1) as nat, j);
        let p = pow(cc + 1, (i + j - 1) as nat);
        lemma_pow_positive(cc + 1, (i + j - 1) as nat);
        lemma_growth_step(up, cd, cc, m, p);
        assert(pow(cc + 1, (i + j) as nat) == (cc + 1) * p);
        assert(weighted_grid(a, b, cd, ci, cs, i, j) <= (up + 1) * cd);
        assert(m * (p * (cc + 1)) == m * ((cc + 1) * p)) by (nonlinear_arith);
    }
}

/// A checkable bound that discharges [`weighted_fits`]: with every
/// weight at most `cc` and the geometric bound under the machine word,
/// no candidate the recurrence computes can overflow.
pub proof fn lemma_weighted_fits_from_bound(
    a: Seq<char>,
    b: Seq<char>,
    cd: int,
    ci: int,
    cs: int,
    cc: int,
)
    requires
        0 <= cd <= cc,
        0 <= ci <= cc,
        0 <= cs <= cc,
        (a.len() + b.len() + cc + 1) * pow(cc + 1, (a.len() + b.len()) as nat) < usize::MAX,
    ensures
        weighted_fits(a, b, cd, ci, cs),
{
    reveal(pow);
    let ln = (a.len() + b.len()) as nat;
    let m = a.len() + b.len() + cc + 1;
    assert forall|i: nat, j: nat|
        1 <= i < a.len() && 1 <= j < b.len() implies cell_fits(a, b, cd, ci, cs, i, j) by {
        let up = weighted_grid(a, b, cd, ci, cs, (i - 1) as nat, j);
        let left = weighted_grid(a, b, cd, ci, cs, i, (j - 1) as nat);
        let diag = weighted_grid(a, b, cd, ci, cs, (i - 1) as nat, (j - 1) as nat);
        lemma_weighted_grid_nonneg(a, b, cd, ci, cs, (i - 1) as nat, j);
        lemma_weighted_grid_nonneg(a, b, cd, ci, cs, i, (j - 1) as nat);
        lemma_weighted_grid_nonneg(a, b, cd, ci, cs, (i - 1) as nat, (j - 1) as nat);
        lemma_weighted_grid_upper(a, b, cd, ci, cs, cc, (i - 1) as nat, j);
        lemma_weighted_grid_upper(a, b, cd, ci, cs, cc, i, (j - 1) as nat);
        lemma_weighted_grid_upper(a, b, cd, ci, cs, cc, (i - 1) as nat, (j - 1) as nat);
        let p1 = pow(cc + 1, (i + j - 1) as nat);
        let p2 = pow(cc + 1, (i + j - 2) as nat);
        lemma_pow_positive(cc + 1, (i + j - 1) as nat);
        lemma_pow_positive(cc + 1, (i + j - 2) as nat);
        lemma_growth_step(up, cd, cc, m, p1);
        lemma_growth_step(left, ci, cc, m, p1);
        lemma_growth_step(diag, cs, cc, m, p2);
        assert(p1 == (cc + 1) * p2);
        assert(pow(cc + 1, (i + j) as nat) == (cc + 1) * p1);
        lemma_pow_increases((cc + 1) as nat, (i + j) as nat, ln);
        lemma_pow_increases((cc + 1) as nat, (i + j - 1) as nat, ln);
        lemma_pow_increases((cc + 1) as nat, (i + j - 2) as nat, ln);
        assert(m * pow(cc + 1, (i + j) as nat) <= m * pow(cc + 1, ln)) by (nonlinear_arith)
            requires
                0 <= m,
                pow(cc + 1, (i + j) as nat) <= pow(cc + 1, ln),
        ;
        assert(m * p1 <= m * pow(cc + 1, ln)) by (nonlinear_arith)
            requires
                0 <= m,
                p1 <= pow(cc + 1, ln),
        ;
        assert(m * p2 <= m * pow(cc + 1, ln)) by (nonlinear_arith)
            requires
                0 <= m,
                p2 <= pow(cc + 1, ln),
        ;
        assert(diag * cs <= (diag + 1) * cs) by (nonlinear_arith)
            requires
                cs >= 0,
        ;
        assert((cc + 1) * p2 == p2 * (cc + 1)) by (nonlinear_arith);
        assert((cc + 1) * p1 == p1 * (cc + 1)) by (nonlinear_arith);
    }
}

/// Every present answer of the banded loop passed the corner check, so
/// it is at most the bound.
proof fn lemma_band_loop_within(
    a: Seq<char>,
    b: Seq<char>,
    k: int,
    transp: Seq<int>,
    prevr: Seq<int>,
    curr: Seq<int>,
    i: int,
)
    ensures
        (match band_loop(a, b, k, transp, prevr, curr, i) {
            Some(d) => d <= k,
            None => true,
        }),
    decreases (if b.len() + 1 - i >= 0 { b.len() + 1 - i } else { 0 }),
{
    if i <= b.len() {
        let from = band_from(i, k);
        let to = band_to(a.len() as int, i, k);
        let filled = band_fill(a, b, prevr, transp, curr.update(0, i), i, from, to);
        lemma_band_loop_within(a, b, k, prevr, filled, filled, i + 1);
    }
}

/// Bound respected: with both operands non-empty, a present banded
/// answer never exceeds the caller's bound — a distance above it is
/// reported as absence, never returned.
pub proof fn lemma_banded_within_bound(a: Seq<char>, b: Seq<char>, k: int)
    requires
        a.len() >= 1,
        b.len() >= 1,
    ensures
        (match banded_distance_spec(a, b, k) {
            Some(d) => d <= k,
            None => true,
        }),
{
    if a.len() > b.len() {
        lemma_band_loop_within(
            b,
            a,
            k,
            Seq::new((b.len() + 1) as nat, |t: int| 0),
            Seq::new((b.len() + 1) as nat, |t: int| t),
            Seq::new((b.len() + 1) as nat, |t: int| 0),
            1,
        );
    } else {
        lemma_band_loop_within(
            a,
            b,
            k,
            Seq::new((a.len() + 1) as nat, |t: int| 0),
            Seq::new((a.len() + 1) as nat, |t: int| t),
            Seq::new((a.len() + 1) as nat, |t: int| 0),
            1,
        );
    }
}

/// With no weight above one, the grid stays linear: cell `(i, j)` is at
/// most `i + j`.
pub proof fn lemma_weighted_grid_small_weights(
    a: Seq<char>,
    b: Seq<char>,
    cd: int,
    ci: int,
    cs: int,
    i: nat,
    j: nat,
)
    requires
        0 <= cd <= 1,
        0 <= ci <= 1,
        0 <= cs <= 1,
    ensures
        weighted_grid(a, b, cd, ci, cs, i, j) <= i + j,
    decreases i + j,
{
    if i != 0 && j != 0 {
        let up = weighted_grid(a, b, cd, ci, cs, (i - 1) as nat, j);
        lemma_weighted_grid_small_weights(a, b, cd, ci, cs, (i - 1) as nat, j);
        lemma_weighted_grid_nonneg(a, b, cd, ci, cs, (i - 1) as nat, j);
        assert((up + 1) * cd <= (up + 1) * 1) by (nonlinear_arith)
            requires
                0 <= up + 1,
                cd <= 1,
        ;
    }
}

/// With no weight above one — the common unit-cost case — the
/// computation fits the machine word as soon as the two lengths do: a
/// direct discharge of [`weighted_fits`].
pub proof fn lemma_weighted_fits_small_weights(
    a: Seq<char>,
    b: Seq<char>,
    cd: int,
    ci: int,
    cs: int,
)
    requires
        0 <= cd <= 1,
        0 <= ci <= 1,
        0 <= cs <= 1,
        a.len() + b.len() <= usize::MAX,
    ensures
        weighted_fits(a, b, cd, ci, cs),
{
    assert forall|i: nat, j: nat|
        1 <= i < a.len() && 1 <= j < b.len() implies cell_fits(a, b, cd, ci, cs, i, j) by {
        let up = weighted_grid(a, b, cd, ci, cs, (i - 1) as nat, j);
        let left = weighted_grid(a, b, cd, ci, cs, i, (j - 1) as nat);
        let diag = weighted_grid(a, b, cd, ci, cs, (i - 1) as nat, (j - 1) as nat);
        lemma_weighted_grid_nonneg(a, b, cd, ci, cs, (i - 1) as nat, j);
        lemma_weighted_grid_nonneg(a, b, cd, ci, cs, i, (j - 1) as nat);
        lemma_weighted_grid_nonneg(a, b, cd, ci, cs, (i - 1) as nat, (j - 1) as nat);
        lemma_weighted_grid_small_weights(a, b, cd, ci, cs, (i - 1) as nat, j);
        lemma_weighted_grid_small_weights(a, b, cd, ci, cs, i, (j - 1) as nat);
        lemma_weighted_grid_small_weights(a, b, cd, ci, cs, (i - 1) as nat, (j - 1) as nat);
        assert((up + 1) * cd <= (up + 1) * 1) by (nonlinear_arith)
            requires
                0 <= up + 1,
                cd <= 1,
        ;
        assert((left + 1) * ci <= (left + 1) * 1) by (nonlinear_arith)
            requires
                0 <= left + 1,
                ci <= 1,
        ;
        assert(diag * cs <= (diag + 1) * cs) by (nonlinear_arith)
            requires
                0 <= cs,
        ;
        assert((diag + 1) * cs <= (diag + 1) * 1) by (nonlinear_arith)
            requires
                0 <= diag + 1,
                cs <= 1,
        ;
    }
}

/// The transposition option never raises a cell above the plain
/// unit-cost Levenshtein grid: cell `(i, j)` of [`osa_grid`] is at most
/// the transposed cell `(j, i)` of the unit-cost weighted grid.
pub proof fn lemma_osa_le_lev_grid(a: Seq<char>, b: Seq<char>, i: nat, j: nat)
    ensures
        osa_grid(a, b, i, j) <= weighted_grid(a, b, 1, 1, 1, j, i),
    decreases i + j,
{
    if i != 0 && j != 0 {
        lemma_osa_le_lev_grid(a, b, i, (j - 1) as nat);
        lemma_osa_le_lev_grid(a, b, (i - 1) as nat, (j - 1) as nat);
        lemma_osa_le_lev_grid(a, b, (i - 1) as nat, j);
    }
}

/// Each deletion step costs one: cell `(i, j)` of the full transposition
/// grid is at most `i + j`.
pub proof fn lemma_osa_le_sum(a: Seq<char>, b: Seq<char>, i: nat, j: nat)
    ensures
        osa_grid(a, b, i, j) <= i + j,
    decreases i + j,
{
    if i != 0 && j != 0 {
        lemma_osa_le_sum(a, b, i, (j - 1) as nat);
        lemma_osa_le_sum(a, b, (i - 1) as nat, (j - 1) as nat);
        lemma_osa_le_sum(a, b, (i - 1) as nat, j);
    }
}

/// Filling a whole row over the full band reproduces row `i` of the
/// full transposition grid, given the previous row and the row two back.
proof fn lemma_band_fill_full(
    a: Seq<char>,
    b: Seq<char>,
    prevr: Seq<int>,
    transp: Seq<int>,
    curr: Seq<int>,
    i: nat,
    j: nat,
)
    requires
        1 <= i <= b.len(),
        1 <= j <= a.len(),
        prevr.len() == a.len() + 1,
        transp.len() == a.len() + 1,
        curr.len() == a.len() + 1,
        forall|t: int| 0 <= t <= a.len() ==> prevr[t] == osa_grid(a, b, (i - 1) as nat, t as nat),
        i >= 2 ==> forall|t: int|
            0 <= t <= a.len() ==> transp[t] == osa_grid(a, b, (i - 2) as nat, t as nat),
        curr[0] == i,
    ensures
        band_fill(a, b, prevr, transp, curr, i as int, 1, j as int).len() == a.len() + 1,
        forall|t: int|
            0 <= t <= j ==> band_fill(a, b, prevr, transp, curr, i as int, 1, j as int)[t]
                == osa_grid(a, b, i, t as nat),
    decreases j,
{
    if j == 1 {
        assert(band_fill(a, b, prevr, transp, curr, i as int, 1, 0) == curr);
        let filled = band_fill(a, b, prevr, transp, curr, i as int, 1, 1);
        assert(filled == curr.update(
            1,
            band_cell(a, b, prevr, transp, curr, i as int, 1),
        ));
        assert(osa_grid(a, b, i, 0) == i as int);
        assert(band_cell(a, b, prevr, transp, curr, i as int, 1) == osa_grid(
            a,
            b,
            i,
            1,
        ));
    } else {
        lemma_band_fill_full(a, b, prevr, transp, curr, i, (j - 1) as nat);
        let c = band_fill(a, b, prevr, transp, curr, i as int, 1, j - 1);
        let filled = band_fill(a, b, prevr, transp, curr, i as int, 1, j as int);
        assert(filled == c.update(
            j as int,
            band_cell(a, b, prevr, transp, c, i as int, j as int),
        ));
        assert(c[j - 1] == osa_grid(a, b, i, (j - 1) as nat));
        assert(band_cell(a, b, prevr, transp, c, i as int, j as int) == osa_grid(
            a,
            b,
            i,
            j,
        ));
        assert forall|t: int| 0 <= t <= j implies filled[t] == osa_grid(a, b, i, t as nat) by {
            if t < j {
                assert(filled[t] == c[t]);
            }
        }
    }
}

/// Running the banded loop under a bound at least the two lengths
/// combined never bails out and answers the corner of the full
/// transposition grid.
proof fn lemma_band_loop_full(
    a: Seq<char>,
    b: Seq<char>,
    k: int,
    transp: Seq<int>,
    prevr: Seq<int>,
    curr: Seq<int>,
    i: nat,
)
    requires
        1 <= a.len() <= b.len(),
        k >= a.len() + b.len(),
        1 <= i <= b.len() + 1,
        prevr.len() == a.len() + 1,
        transp.len() == a.len() + 1,
        curr.len() == a.len() + 1,
        i <= b.len() ==> forall|t: int|
            0 <= t <= a.len() ==> prevr[t] == osa_grid(a, b, (i - 1) as nat, t as nat),
        2 <= i <= b.len() ==> forall|t: int|
            0 <= t <= a.len() ==> transp[t] == osa_grid(a, b, (i - 2) as nat, t as nat),
        i == b.len() + 1 ==> curr[a.len() as int] == osa_grid(a, b, b.len(), a.len()),
    ensures
        band_loop(a, b, k, transp, prevr, curr, i as int) == Some(
            osa_grid(a, b, b.len(), a.len()),
        ),
    decreases b.len() + 1 - i,
{
    if i <= b.len() {
        assert(band_from(i as int, k) == 1);
        assert(band_to(a.len() as int, i as int, k) == a.len());
        let seeded = curr.update(0, i as int);
        lemma_band_fill_full(a, b, prevr, transp, seeded, i, a.len());
        let filled = band_fill(a, b, prevr, transp, seeded, i as int, 1, a.len() as int);
        lemma_osa_le_sum(a, b, i, a.len());
        assert(row_min(filled, 1, a.len() as int) <= filled[a.len() as int]);
        lemma_band_loop_full(a, b, k, prevr, filled, filled, (i + 1) as nat);
    } else {
        lemma_osa_le_sum(a, b, b.len(), a.len());
    }
}

/// Banded correctness under a generous bound: with `max_distance` at
/// least the two lengths combined (so certainly at least the true
/// distance), the banded metric answers the full transposition
/// recurrence's corner, which never exceeds the plain unit-cost
/// Levenshtein distance.
pub proof fn lemma_banded_generous_bound(a: Seq<char>, b: Seq<char>, k: int)
    requires
        k >= a.len() + b.len(),
    ensures
        banded_distance_spec(a, b, k) == Some(osa_distance(a, b)),
        osa_distance(a, b) <= lev_distance(a, b),
{
    if a.len() == 0 || b.len() == 0 {
    } else if a.len() > b.len() {
        lemma_band_loop_full(
            b,
            a,
            k,
            Seq::new((b.len() + 1) as nat, |t: int| 0),
            Seq::new((b.len() + 1) as nat, |t: int| t),
            Seq::new((b.len() + 1) as nat, |t: int| 0),
            1,
        );
        lemma_osa_le_lev_grid(b, a, a.len(), b.len());
        lemma_weighted_grid_swap(b, a, 1, 1, 1, b.len(), a.len());
    } else {
        lemma_band_loop_full(
            a,
            b,
            k,
            Seq::new((a.len() + 1) as nat, |t: int| 0),
            Seq::new((a.len() + 1) as nat, |t: int| t),
            Seq::new((a.len() + 1) as nat, |t: int| 0),
            1,
        );
        lemma_osa_le_lev_grid(a, b, b.len(), a.len());
    }
}

/// Transposing the full transposition grid swaps the operands: cell
/// `(i, j)` over `(a, b)` equals cell `(j, i)` over `(b, a)`.
pub proof fn lemma_osa_grid_transpose(a: Seq<char>, b: Seq<char>, i: nat, j: nat)
    ensures
        osa_grid(a, b, i, j) == osa_grid(b, a, j, i),
    decreases i + j,
{
    if i != 0 && j != 0 {
        lemma_osa_grid_transpose(a, b, i, (j - 1) as nat);
        lemma_osa_grid_transpose(a, b, (i - 1) as nat, (j - 1) as nat);
        lemma_osa_grid_transpose(a, b, (i - 1) as nat, j);
        if i > 1 && j > 1 {
            lemma_osa_grid_transpose(a, b, (i - 2) as nat, (j - 2) as nat);
        }
    }
}

/// Symmetry of the full transposition distance in its operands. For
/// unequal lengths both orders normalize to the same grid; for equal
/// lengths the grids are transposes of each other.
pub proof fn lemma_osa_symmetry(a: Seq<char>, b: Seq<char>)
    ensures
        osa_distance(a, b) == osa_distance(b, a),
{
    if a.len() == b.len() && a.len() != 0 {
        lemma_osa_grid_transpose(a, b, b.len(), a.len());
    }
}

/// At a generous bound the banded metric is symmetric in its operands.
pub proof fn lemma_banded_symmetry_generous(a: Seq<char>, b: Seq<char>, k: int)
    requires
        k >= a.len() + b.len(),
    ensures
        banded_distance_spec(a, b, k) == banded_distance_spec(b, a, k),
{
    lemma_banded_generous_bound(a, b, k);
    lemma_banded_generous_bound(b, a, k);
    lemma_osa_symmetry(a, b);
}

/// Raising an already generous bound never changes the answer: every
/// bound at least the two lengths combined restores the same defined
/// value.
pub proof fn lemma_banded_stable_above(a: Seq<char>, b: Seq<char>, k1: int, k2: int)
    requires
        k1 >= a.len() + b.len(),
        k2 >= a.len() + b.len(),
    ensures
        banded_distance_spec(a, b, k1) == banded_distance_spec(a, b, k2),
{
    lemma_banded_generous_bound(a, b, k1);
    lemma_banded_generous_bound(a, b, k2);
}

} // verus!
