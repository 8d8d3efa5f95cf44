//! Fixed-point arithmetic: quantities that the market model treats as reals
//! (scores, conditions, rents per unit of area) are integers counting steps
//! of `1 / SCALE`, and the square roots the scoring formula needs are exact
//! integer square roots of such values.

use vstd::prelude::*;

verus! {

/// Number of fixed-point steps per whole unit: a value `v` stands for the
/// real number `v / SCALE`.
pub const SCALE: u64 = 1_000_000;

/// `r` is the integer square root of `x`: the largest integer whose square
/// does not exceed `x`.
pub open spec fn is_isqrt(x: int, r: int) -> bool {
    0 <= r && r * r <= x < (r + 1) * (r + 1)
}

/// The integer square root of a non-negative `x`, as a mathematical function.
pub open spec fn isqrt_spec(x: int) -> int {
    choose|r: int| #[trigger] is_isqrt(x, r)
}

/// Every non-negative integer has an integer square root.
pub proof fn lemma_isqrt_exists(x: nat)
    ensures
        exists|r: int| #[trigger] is_isqrt(x as int, r),
    decreases x,
{
    if x == 0 {
        assert(is_isqrt(0, 0));
    } else {
        lemma_isqrt_exists((x - 1) as nat);
        let r = choose|r: int| #[trigger] is_isqrt(x - 1, r);
        if x < (r + 1) * (r + 1) {
            assert(is_isqrt(x as int, r));
        } else {
            assert(x == (r + 1) * (r + 1));
            assert((r + 1) * (r + 1) < (r + 2) * (r + 2)) by (nonlinear_arith)
                requires r >= 0;
            assert(is_isqrt(x as int, r + 1));
        }
    }
}

/// The integer square root is unique.
pub proof fn lemma_isqrt_unique(x: int, r1: int, r2: int)
    requires
        is_isqrt(x, r1),
        is_isqrt(x, r2),
    ensures
        r1 == r2,
{
    if r1 < r2 {
        assert((r1 + 1) * (r1 + 1) <= r2 * r2) by (nonlinear_arith)
            requires 0 <= r1, r1 < r2;
        assert(false);
    }
    if r2 < r1 {
        assert((r2 + 1) * (r2 + 1) <= r1 * r1) by (nonlinear_arith)
            requires 0 <= r2, r2 < r1;
        assert(false);
    }
}

/// A witness pins `isqrt_spec` down.
pub proof fn lemma_isqrt_is(x: int, r: int)
    requires
        is_isqrt(x, r),
    ensures
        isqrt_spec(x) == r,
{
    lemma_isqrt_unique(x, r, isqrt_spec(x));
}

/// The integer square root never decreases as its argument grows.
pub proof fn lemma_isqrt_monotone(x: int, y: int)
    requires
        0 <= x <= y,
    ensures
        isqrt_spec(x) <= isqrt_spec(y),
{
    lemma_isqrt_exists(x as nat);
    lemma_isqrt_exists(y as nat);
    let rx = isqrt_spec(x);
    let ry = isqrt_spec(y);
    assert(is_isqrt(x, rx));
    assert(is_isqrt(y, ry));
    if ry < rx {
        assert((ry + 1) * (ry + 1) <= rx * rx) by (nonlinear_arith)
            requires 0 <= ry, ry < rx;
        assert(false);
    }
}

/// The integer square root, by binary search.
pub fn isqrt(x: u128) -> (r: u64)
    ensures
        is_isqrt(x as int, r as int),
        r as int == isqrt_spec(x as int),
{
    let mut lo: u128 = 0;
    let mut hi: u128 = if x < 0x1_0000_0000_0000_0000u128 {
        x + 1
    } else {
        0x1_0000_0000_0000_0000u128
    };
    proof {
        assert((x + 1) * (x + 1) > x) by (nonlinear_arith)
            requires x >= 0;
        assert(hi * hi > x) by (nonlinear_arith)
            requires
                hi >= 1,
                hi == x + 1 || hi == 0x1_0000_0000_0000_0000u128,
                x < 0x1_0000_0000_0000_0000_0000_0000_0000_0000int,
                (x + 1) * (x + 1) > x;
    }
    while lo + 1 < hi
        invariant
            lo < hi,
            hi <= 0x1_0000_0000_0000_0000u128,
            lo * lo <= x,
            x < hi * hi,
        decreases hi - lo,
    {
        let mid = lo + (hi - lo) / 2;
        assert(lo < mid < hi);
        assert(mid * mid < 0x1_0000_0000_0000_0000_0000_0000_0000_0000int) by (nonlinear_arith)
            requires mid < 0x1_0000_0000_0000_0000u128;
        if mid * mid <= x {
            lo = mid;
        } else {
            hi = mid;
        }
    }
    proof {
        assert(is_isqrt(x as int, lo as int));
        lemma_isqrt_is(x as int, lo as int);
    }
    lo as u64
}

} // verus!
