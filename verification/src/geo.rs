//! Positions on the city grid and the commute term of the desirability
//! score: `1` at distance zero, otherwise the reciprocal of the Euclidean
//! distance, held in fixed point.  Distances enter every comparison only
//! through their squares, so the squared distance is the working quantity.

use vstd::prelude::*;
use crate::fixed::{SCALE, is_isqrt, isqrt_spec, isqrt, lemma_isqrt_exists, lemma_isqrt_is,
    lemma_isqrt_monotone};
use vstd::arithmetic::div_mod::{lemma_fundamental_div_mod, lemma_div_is_ordered_by_denominator};

verus! {

/// Largest squared distance up to which the fixed-point commute term is
/// guaranteed to fall strictly with each step of squared distance; beyond
/// it the `1 / SCALE` granularity can no longer separate neighboring
/// distances.
pub const COMMUTE_STRICT_MAX: u64 = 4900;

/// A point on the city grid.
#[derive(Clone, Copy, PartialEq, Eq, Structural, Debug)]
pub struct Position {
    pub x: i32,
    pub y: i32,
}

/// The squared Euclidean distance between two positions.
pub open spec fn dist_sq_spec(a: Position, b: Position) -> int {
    (a.x - b.x) * (a.x - b.x) + (a.y - b.y) * (a.y - b.y)
}

/// The squared Euclidean distance between two grid positions.
pub fn distance_squared(a: Position, b: Position) -> (d2: u128)
    ensures
        d2 == dist_sq_spec(a, b),
{
    let dx: i64 = (a.x as i64) - (b.x as i64);
    let dy: i64 = (a.y as i64) - (b.y as i64);
    proof {
        assert(dx * dx < 0x100_0000_0000_0000_0000i128 && dx * dx >= 0) by (nonlinear_arith)
            requires -0x10_0000_0000i128 < dx < 0x10_0000_0000i128;
        assert(dy * dy < 0x100_0000_0000_0000_0000i128 && dy * dy >= 0) by (nonlinear_arith)
            requires -0x10_0000_0000i128 < dy < 0x10_0000_0000i128;
    }
    let d2: i128 = (dx as i128) * (dx as i128) + (dy as i128) * (dy as i128);
    d2 as u128
}

/// The commute term of the desirability score, in fixed point: `SCALE`
/// (that is, `1`) at distance zero, otherwise `SCALE` divided by the
/// Euclidean distance, rounded down to the fixed-point grid but floored
/// at one step: a finite commute is never worth exactly nothing, so the
/// term stays positive at every distance.
pub open spec fn commute_spec(d2: int) -> int {
    if d2 == 0 {
        SCALE as int
    } else {
        let c = isqrt_spec(((SCALE * SCALE) as int) / d2);
        if c < 1 {
            1
        } else {
            c
        }
    }
}

/// `SCALE` is the integer square root of its own square.
pub proof fn lemma_isqrt_scale()
    ensures
        isqrt_spec((SCALE * SCALE) as int) == SCALE as int,
{
    assert(SCALE as int * SCALE as int == 1_000_000_000_000int) by (nonlinear_arith);
    assert((SCALE as int + 1) * (SCALE as int + 1) == 1_000_002_000_001int) by (nonlinear_arith);
    assert(is_isqrt((SCALE * SCALE) as int, SCALE as int));
    lemma_isqrt_is((SCALE * SCALE) as int, SCALE as int);
}

/// The commute term stays between one fixed-point step and `SCALE`, and
/// sits exactly at `SCALE` for squared distances of zero and one
/// (distance one has a commute of exactly `1`, the same as distance
/// zero).
pub proof fn lemma_commute_bounds(d2: int)
    requires
        0 <= d2,
    ensures
        1 <= commute_spec(d2) <= SCALE as int,
        d2 <= 1 ==> commute_spec(d2) == SCALE as int,
{
    lemma_isqrt_scale();
    if d2 == 0 {
    } else {
        let s2 = (SCALE * SCALE) as int;
        assert(s2 / 1 == s2);
        lemma_div_is_ordered_by_denominator(s2, 1, d2);
        assert(s2 / d2 <= s2);
        assert(s2 / d2 >= 0) by {
            lemma_fundamental_div_mod(s2, d2);
            assert((s2 / d2) * d2 + s2 % d2 == s2);
            if s2 / d2 < 0 {
                assert((s2 / d2) * d2 <= -d2) by (nonlinear_arith)
                    requires s2 / d2 <= -1, d2 >= 1;
            }
        }
        lemma_isqrt_monotone(s2 / d2, s2);
        lemma_isqrt_exists((s2 / d2) as nat);
        let r = isqrt_spec(s2 / d2);
        assert(is_isqrt(s2 / d2, r));
        if d2 == 1 {
            assert(s2 / 1 == s2);
        }
    }
}

/// The commute term never grows with squared distance.
pub proof fn lemma_commute_monotone(a: int, b: int)
    requires
        0 <= a <= b,
    ensures
        commute_spec(b) <= commute_spec(a),
{
    lemma_commute_bounds(a);
    lemma_commute_bounds(b);
    if a > 0 {
        let s2 = (SCALE * SCALE) as int;
        lemma_div_is_ordered_by_denominator(s2, a, b);
        lemma_isqrt_monotone(s2 / b, s2 / a);
    }
}

/// One step of squared distance strictly lowers the commute term, as long
/// as the squared distance stays within `COMMUTE_STRICT_MAX`: up to there
/// the fixed-point grid is fine enough to separate neighboring distances.
pub proof fn lemma_commute_strict_step(a: int)
    requires
        1 <= a <= COMMUTE_STRICT_MAX as int,
    ensures
        commute_spec(a + 1) < commute_spec(a),
{
    let s2 = (SCALE * SCALE) as int;
    let qa = s2 / a;
    let qb = s2 / (a + 1);
    lemma_commute_bounds(a);
    lemma_commute_bounds(a + 1);
    lemma_isqrt_exists(qa as nat);
    lemma_isqrt_exists(qb as nat);
    let ca = isqrt_spec(qa);
    let cb = isqrt_spec(qb);
    assert(is_isqrt(qa, ca));
    assert(is_isqrt(qb, cb));

    // Division facts: qa * a is within a of s2, and qb * (a + 1) <= s2.
    lemma_fundamental_div_mod(s2, a);
    lemma_fundamental_div_mod(s2, a + 1);
    assert(qa * a >= s2 - a + 1 && qa * a <= s2) by (nonlinear_arith)
        requires
            a >= 1,
            s2 == a * qa + s2 % a,
            0 <= s2 % a < a;
    assert(qb * (a + 1) <= s2) by (nonlinear_arith)
        requires
            a >= 1,
            s2 == (a + 1) * qb + s2 % (a + 1),
            0 <= s2 % (a + 1);

    // The gap between consecutive quotients, cleared of denominators.
    assert((qa - qb) * (a * (a + 1)) >= s2 - a * a + 1) by (nonlinear_arith)
        requires
            a >= 1,
            qa * a >= s2 - a + 1,
            qb * (a + 1) <= s2;

    // ca, scaled by a, stays below SCALE times a loose root of a.
    let w = isqrt_spec(a) + 1;
    lemma_isqrt_exists(a as nat);
    assert(is_isqrt(a, w - 1));
    assert(a < w * w);
    assert(a * (ca * ca) <= s2) by (nonlinear_arith)
        requires
            a >= 1,
            ca * ca <= qa,
            qa * a <= s2;
    assert((ca * a) * (ca * a) < (SCALE as int * w) * (SCALE as int * w)) by (nonlinear_arith)
        requires
            a >= 1,
            w >= 1,
            ca >= 0,
            a < w * w,
            a * (ca * ca) <= s2,
            s2 == SCALE as int * SCALE as int;
    assert(ca * a < SCALE as int * w) by (nonlinear_arith)
        requires
            ca * a >= 0,
            SCALE as int * w >= 0,
            (ca * a) * (ca * a) < (SCALE as int * w) * (SCALE as int * w);

    // w is at most 71 because a is at most 4900 = 70 * 70.
    assert(70int * 70 == 4900 && 71int * 71 == 5041) by (nonlinear_arith);
    assert(is_isqrt(4900, 70));
    lemma_isqrt_monotone(a, 4900);
    lemma_isqrt_is(4900, 70);
    assert(w <= 71);

    // Put the bounds together: the quotient gap exceeds 2 * ca.
    assert((2 * ca) * (a * (a + 1)) < s2 - a * a + 1) by (nonlinear_arith)
        requires
            1 <= a <= 4900,
            w <= 71,
            ca >= 0,
            ca * a < SCALE as int * w,
            s2 == SCALE as int * SCALE as int,
            SCALE as int == 1_000_000;
    assert(qa - qb >= 2 * ca + 1) by (nonlinear_arith)
        requires
            a >= 1,
            (qa - qb) * (a * (a + 1)) >= s2 - a * a + 1,
            (2 * ca) * (a * (a + 1)) < s2 - a * a + 1;

    // So qb lands strictly below ca squared, and cb below ca.
    assert(qb < ca * ca) by (nonlinear_arith)
        requires
            qa - qb >= 2 * ca + 1,
            qa < (ca + 1) * (ca + 1);
    assert(cb < ca) by (nonlinear_arith)
        requires
            cb >= 0,
            ca >= 0,
            cb * cb <= qb,
            qb < ca * ca;

    // Within the strict range the one-step floor never engages on the
    // nearer side: its raw term is at least two.
    assert(qa >= 4) by (nonlinear_arith)
        requires
            1 <= a <= 4900,
            qa * a >= s2 - a + 1,
            s2 == 1_000_000_000_000int;
    assert(ca >= 2) by (nonlinear_arith)
        requires
            qa >= 4,
            qa < (ca + 1) * (ca + 1),
            ca >= 0;
}

/// Strict monotonicity of the commute term over the strict range: of two
/// squared distances, both at least one and the smaller within
/// `COMMUTE_STRICT_MAX`, the larger has the strictly smaller commute term.
pub proof fn lemma_commute_strict(a: int, b: int)
    requires
        1 <= a < b,
        a <= COMMUTE_STRICT_MAX as int,
    ensures
        commute_spec(b) < commute_spec(a),
{
    lemma_commute_strict_step(a);
    lemma_commute_monotone(a + 1, b);
}

/// The commute term of the distance between two positions, in fixed point.
pub fn commute_term(d2: u128) -> (c: u64)
    ensures
        c == commute_spec(d2 as int),
        1 <= c <= SCALE,
{
    proof {
        lemma_commute_bounds(d2 as int);
    }
    if d2 == 0 {
        SCALE
    } else {
        let q: u128 = ((SCALE as u128) * (SCALE as u128)) / d2;
        let c = isqrt(q);
        if c < 1 {
            1
        } else {
            c
        }
    }
}

} // verus!
