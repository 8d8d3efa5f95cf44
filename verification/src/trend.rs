//! The market-trend estimator: a least-squares line through the last
//! twelve monthly observations, projected one step ahead.  With the
//! sample points fixed at months `0` through `11`, the normal equations
//! collapse to a closed integer formula, so the projection is computed
//! exactly and rounded down to the fixed-point grid.

use vstd::prelude::*;
use vstd::arithmetic::div_mod::{lemma_fundamental_div_mod, lemma_fundamental_div_mod_converse};

verus! {

/// How many monthly observations a trend fit takes.
pub const TREND_MONTHS: usize = 12;

/// Upper bound on a rent-per-area observation, in fixed point: the
/// largest admissible rent over the smallest admissible area.
pub const RPA_MAX: u64 = 1_000_000_000_000_000;

/// The sum of a sequence of observations.
pub open spec fn sum_y(ys: Seq<u64>) -> int
    decreases ys.len(),
{
    if ys.len() == 0 {
        0
    } else {
        ys.last() + sum_y(ys.drop_last())
    }
}

/// The sum of each observation weighted by its month index.
pub open spec fn sum_xy(ys: Seq<u64>) -> int
    decreases ys.len(),
{
    if ys.len() == 0 {
        0
    } else {
        (ys.len() - 1) * ys.last() + sum_xy(ys.drop_last())
    }
}

/// The least-squares slope of twelve observations, cleared of its
/// denominator of 1716 (which is `12 * 506 - 66 * 66`, from the fixed
/// month indices `0..12`).
pub open spec fn slope_num_spec(ys: Seq<u64>) -> int {
    12 * sum_xy(ys) - 66 * sum_y(ys)
}

/// The one-step-ahead projection `slope * 12 + intercept` of the fitted
/// line, rounded down: the closed form reduces to a single division
/// by 264.
pub open spec fn trend_spec(ys: Seq<u64>) -> int {
    (slope_num_spec(ys) + 22 * sum_y(ys)) / 264
}

/// Fit a line through twelve observations at month indices `0..12` and
/// project it one month ahead, exactly, rounding down.
pub fn trend_estimate(ys: &Vec<u64>) -> (t: i64)
    requires
        ys@.len() == TREND_MONTHS,
        forall|j: int| 0 <= j < ys@.len() ==> ys@[j] <= RPA_MAX,
    ensures
        t == trend_spec(ys@),
        -20_000_000_000_000_000i64 <= t <= 20_000_000_000_000_000i64,
{
    let mut acc_y: u64 = 0;
    let mut acc_xy: u64 = 0;
    let mut i: usize = 0;
    while i < ys.len()
        invariant
            ys@.len() == TREND_MONTHS,
            forall|j: int| 0 <= j < ys@.len() ==> ys@[j] <= RPA_MAX,
            i <= ys@.len(),
            acc_y == sum_y(ys@.take(i as int)),
            acc_xy == sum_xy(ys@.take(i as int)),
            acc_y <= i * RPA_MAX,
            acc_xy <= 11 * i * RPA_MAX,
        decreases ys@.len() - i,
    {
        let y = ys[i];
        proof {
            assert(ys@.take(i as int + 1).drop_last() =~= ys@.take(i as int));
            assert(ys@.take(i as int + 1).last() == ys@[i as int]);
            assert((i + 1) * RPA_MAX == i * RPA_MAX + RPA_MAX) by (nonlinear_arith);
            assert(11 * (i + 1) * RPA_MAX == 11 * i * RPA_MAX + 11 * RPA_MAX)
                by (nonlinear_arith);
            assert(i as int * y <= 11 * RPA_MAX) by (nonlinear_arith)
                requires i < 12, y <= RPA_MAX;
        }
        acc_y = acc_y + y;
        acc_xy = acc_xy + (i as u64) * y;
        i += 1;
    }
    proof {
        assert(ys@.take(ys@.len() as int) =~= ys@);
    }
    let num: i128 = 12 * (acc_xy as i128) - 66 * (acc_y as i128) + 22 * (acc_y as i128);
    proof {
        assert(num == slope_num_spec(ys@) + 22 * sum_y(ys@));
        assert(-53_000_000_000_000_000_000i128 <= num <= 53_000_000_000_000_000_000i128)
            by (nonlinear_arith)
            requires
                num == 12 * (acc_xy as i128) - 44 * (acc_y as i128),
                0 <= acc_y,
                acc_y <= 12 * (RPA_MAX as int),
                0 <= acc_xy,
                acc_xy <= 132 * (RPA_MAX as int),
                RPA_MAX == 1_000_000_000_000_000u64;
    }
    let t: i128 = if num >= 0 {
        (((num as u128) / 264) as i128)
    } else {
        let m: u128 = (-num) as u128;
        -(((m + 263) / 264) as i128)
    };
    proof {
        lemma_fundamental_div_mod(num as int, 264);
        let q = num as int / 264;
        let r = num as int % 264;
        if num < 0 {
            let m = -(num as int);
            lemma_fundamental_div_mod_converse(m + 263, 264, -q, 263 - r);
            assert((m + 263) / 264 == -q);
        }
        assert(t == num as int / 264);
    }
    t as i64
}

} // verus!
