//! Banded Damerau-Levenshtein distance with early termination: three
//! rolling rows, a diagonal band sized by the caller's bound, and a
//! bail-out as soon as a row's in-band minimum exceeds the bound.

use crate::chars::chars_vec;
use crate::model::{band_fill, band_from, band_loop, band_to, banded_core, banded_distance_spec,
    int_row, reports, row_min};
use vstd::prelude::*;

verus! {

/// Overwrite `dst` with the contents of `src`, element by element.
fn copy_row(dst: &mut Vec<usize>, src: &Vec<usize>)
    requires
        old(dst)@.len() == src@.len(),
    ensures
        final(dst)@ == src@,
{
    let n = src.len();
    let mut t: usize = 0;
    while t < n
        invariant
            t <= n,
            n == src@.len(),
            dst@.len() == n,
            forall|x: int| 0 <= x < t ==> dst@[x] == src@[x],
        decreases n - t,
    {
        dst.set(t, src[t]);
        t = t + 1;
    }
    proof {
        assert(dst@ =~= src@);
    }
}

/// The banded recurrence proper, on operands already ordered so the
/// first is no longer than the second.
fn banded(a: &Vec<char>, b: &Vec<char>, k: usize) -> (r: Option<usize>)
    requires
        1 <= a@.len() <= b@.len(),
        a@.len() + b@.len() < usize::MAX,
    ensures
        reports(r, banded_core(a@, b@, k as int)),
{
    let lena = a.len();
    let lenb = b.len();
    let width = lena + 1;
    let min_gap = lenb - lena;
    if min_gap > k {
        return None;
    }
    let mut curr: Vec<usize> = Vec::new();
    let mut prevr: Vec<usize> = Vec::new();
    let mut transp: Vec<usize> = Vec::new();
    let mut t: usize = 0;
    while t < width
        invariant
            t <= width,
            curr@.len() == t,
            prevr@.len() == t,
            transp@.len() == t,
            forall|x: int| 0 <= x < t ==> curr@[x] == 0,
            forall|x: int| 0 <= x < t ==> prevr@[x] == x,
            forall|x: int| 0 <= x < t ==> transp@[x] == 0,
        decreases width - t,
    {
        curr.push(0);
        prevr.push(t);
        transp.push(0);
        t = t + 1;
    }
    proof {
        assert(int_row(curr@) =~= Seq::new((a@.len() + 1) as nat, |x: int| 0));
        assert(int_row(prevr@) =~= Seq::new((a@.len() + 1) as nat, |x: int| x));
        assert(int_row(transp@) =~= Seq::new((a@.len() + 1) as nat, |x: int| 0));
    }
    let mut i: usize = 1;
    while i <= lenb
        invariant
            1 <= lena == a@.len(),
            lena <= lenb == b@.len(),
            lena + lenb < usize::MAX,
            lenb - lena <= k,
            min_gap == lenb - lena,
            1 <= i <= lenb + 1,
            curr@.len() == lena + 1,
            prevr@.len() == lena + 1,
            transp@.len() == lena + 1,
            forall|x: int| 0 <= x <= lena ==> curr@[x] + 1 <= lena + i,
            forall|x: int| 0 <= x <= lena ==> prevr@[x] + 1 <= lena + i,
            forall|x: int| 0 <= x <= lena ==> transp@[x] + 1 <= lena + i,
            band_loop(
                a@,
                b@,
                k as int,
                int_row(transp@),
                int_row(prevr@),
                int_row(curr@),
                i as int,
            ) == banded_core(a@, b@, k as int),
        decreases lenb + 1 - i,
    {
        let ghost pre_transp = int_row(transp@);
        let ghost pre_prev = int_row(prevr@);
        let ghost pre_curr = int_row(curr@);
        curr.set(0, i);
        proof {
            assert(int_row(curr@) =~= pre_curr.update(0, i as int));
        }
        let from = if i - 1 > k {
            i - 1 - k
        } else {
            1
        };
        let to = if k >= lena {
            lena
        } else {
            let cand = i + k + 1;
            if cand <= lena {
                cand
            } else {
                lena
            }
        };
        proof {
            assert(from == band_from(i as int, k as int));
            assert(to == band_to(a@.len() as int, i as int, k as int));
            assert(1 <= from && from <= to && to <= lena);
        }
        let ghost seeded = int_row(curr@);
        let ghost filled = band_fill(
            a@,
            b@,
            pre_prev,
            pre_transp,
            seeded,
            i as int,
            from as int,
            to as int,
        );
        let mut j: usize = from;
        while j <= to
            invariant
                1 <= lena == a@.len(),
                lena <= lenb == b@.len(),
                lena + lenb < usize::MAX,
                1 <= i <= lenb,
                1 <= from,
                from <= j,
                j <= to + 1,
                to <= lena,
                curr@.len() == lena + 1,
                prevr@.len() == lena + 1,
                transp@.len() == lena + 1,
                forall|x: int| 0 <= x <= lena ==> prevr@[x] + 1 <= lena + i,
                forall|x: int| 0 <= x <= lena ==> transp@[x] + 1 <= lena + i,
                forall|x: int| 0 <= x <= lena ==> curr@[x] <= lena + i,
                int_row(prevr@) == pre_prev,
                int_row(transp@) == pre_transp,
                int_row(curr@) == band_fill(
                    a@,
                    b@,
                    pre_prev,
                    pre_transp,
                    seeded,
                    i as int,
                    from as int,
                    j - 1,
                ),
            decreases to + 1 - j,
        {
            let left = curr[j - 1];
            let cost = if a[j - 1] == b[i - 1] {
                prevr[j - 1]
            } else {
                prevr[j - 1] + 1
            };
            let up = prevr[j];
            let mut v = left + 1;
            if cost < v {
                v = cost;
            }
            let down = up + 1;
            if down < v {
                v = down;
            }
            if i > 1 && j > 1 && a[j - 1] == b[i - 2] && b[i - 1] == a[j - 2] {
                let tr = transp[j - 2] + 1;
                if tr < v {
                    v = tr;
                }
            }
            curr.set(j, v);
            proof {
                assert(int_row(curr@) =~= band_fill(
                    a@,
                    b@,
                    pre_prev,
                    pre_transp,
                    seeded,
                    i as int,
                    from as int,
                    j as int,
                ));
            }
            j = j + 1;
        }
        if i > min_gap + 1 {
            let mut mn = curr[from];
            let mut j2 = from + 1;
            while j2 <= to
                invariant
                    1 <= from,
                    from < j2,
                    j2 <= to + 1,
                    to <= lena,
                    lena < usize::MAX,
                    curr@.len() == lena + 1,
                    int_row(curr@) == filled,
                    mn == row_min(int_row(curr@), from as int, j2 - 1),
                decreases to + 1 - j2,
            {
                if curr[j2] < mn {
                    mn = curr[j2];
                }
                j2 = j2 + 1;
            }
            if mn > k {
                proof {
                    assert(band_loop(
                        a@,
                        b@,
                        k as int,
                        pre_transp,
                        pre_prev,
                        pre_curr,
                        i as int,
                    ) == None::<int>);
                }
                return None;
            }
        }
        let buf = transp;
        transp = prevr;
        prevr = buf;
        copy_row(&mut prevr, &curr);
        proof {
            assert(band_loop(a@, b@, k as int, pre_transp, pre_prev, pre_curr, i as int)
                == band_loop(a@, b@, k as int, pre_prev, filled, filled, i + 1));
        }
        i = i + 1;
    }
    let ans = curr[lena];
    if ans > k {
        proof {
            assert(band_loop(
                a@,
                b@,
                k as int,
                int_row(transp@),
                int_row(prevr@),
                int_row(curr@),
                i as int,
            ) == None::<int>);
        }
        None
    } else {
        proof {
            assert(band_loop(
                a@,
                b@,
                k as int,
                int_row(transp@),
                int_row(prevr@),
                int_row(curr@),
                i as int,
            ) == Some(ans as int));
        }
        Some(ans)
    }
}

/// Banded Damerau-Levenshtein distance between `str1` and `str2` under
/// the bound `max_dist`.
///
/// An empty operand answers the other operand's length outright. A
/// present answer is the corner cell of the banded transposition
/// recurrence and never exceeds `max_dist`; an absent one means the
/// recurrence showed the distance cannot stay within `max_dist` —
/// the length difference alone exceeds it, a row's in-band minimum
/// already did, or the final corner itself does. The sum of the two
/// character counts must fit the machine word, a machine limit that
/// holds of any strings in memory.
pub fn distance(str1: &str, str2: &str, max_dist: usize) -> (r: Option<usize>)
    requires
        str1@.len() + str2@.len() < usize::MAX,
    ensures
        reports(r, banded_distance_spec(str1@, str2@, max_dist as int)),
{
    let s1 = chars_vec(str1);
    let s2 = chars_vec(str2);
    if s1.len() == 0 {
        return Some(s2.len());
    }
    if s2.len() == 0 {
        return Some(s1.len());
    }
    if s1.len() > s2.len() {
        banded(&s2, &s1, max_dist)
    } else {
        banded(&s1, &s2, max_dist)
    }
}

} // verus!
