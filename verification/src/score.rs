//! The desirability score: a tenant's affordability-weighted utility for a
//! candidate unit.  A hard affordability gate comes first; past it, the
//! score is the square root of the income-to-rent ratio times an additive
//! bundle of amenities (spaciousness, location desirability, condition,
//! commute).  A score of zero means "unaffordable, never chosen."

use vstd::prelude::*;
use crate::fixed::{SCALE, is_isqrt, isqrt_spec, isqrt, lemma_isqrt_monotone};
use crate::geo::{Position, dist_sq_spec, distance_squared, commute_spec, commute_term,
    lemma_isqrt_scale, lemma_commute_strict, COMMUTE_STRICT_MAX};
use crate::city::{Unit, Parcel, INCOME_MAX};
use vstd::arithmetic::div_mod::{lemma_div_is_ordered, lemma_div_multiples_vanish,
    lemma_hoist_over_denominator, lemma_div_is_ordered_by_denominator, lemma_div_by_self};

verus! {

/// Least floor area per occupant, in whole units of area, below which a
/// unit contributes no spaciousness at all.
pub const MIN_AREA: u64 = 50;

/// Rent per tenant when one more occupant joins `n_others`: integer
/// division of the rent among all occupants, floored at one currency unit.
pub open spec fn rent_per_tenant_spec(rent: int, n: int) -> int {
    let q = rent / n;
    if q < 1 {
        1
    } else {
        q
    }
}

/// The affordability ratio, in fixed point: the square root of income
/// over rent-per-tenant.  At least `SCALE` (that is, at least `1`)
/// whenever income covers the rent share.
pub open spec fn ratio_spec(income: int, rpt: int) -> int {
    isqrt_spec(income * SCALE * SCALE / rpt)
}

/// One fixed-point square root.
pub open spec fn sqrt_fp_spec(v: int) -> int {
    isqrt_spec(v * SCALE)
}

/// The spaciousness term, in fixed point: the area surplus per occupant
/// beyond `MIN_AREA`, compressed by a 1/32 exponent — five nested square
/// roots — so that size differences barely move the score.
pub open spec fn spaciousness_spec(area: int, n: int) -> int {
    let per = area * SCALE / n;
    let surplus = if per >= MIN_AREA * SCALE {
        per - MIN_AREA * SCALE
    } else {
        0
    };
    sqrt_fp_spec(sqrt_fp_spec(sqrt_fp_spec(sqrt_fp_spec(sqrt_fp_spec(surplus)))))
}

/// The additive amenity bundle for an occupant count of `n`:
/// spaciousness, location desirability, condition and commute, all in
/// fixed point.
pub open spec fn bundle_n_spec(work: Position, unit: Unit, parcel: Parcel, n: int) -> int {
    spaciousness_spec(unit.area as int, n)
        + parcel.desirability + unit.condition
        + commute_spec(dist_sq_spec(work, unit.pos))
}

/// The desirability score for an occupant count of `n` heads sharing the
/// rent: zero when the rent share is past the tenant's income, and the
/// ratio-scaled amenity bundle otherwise.
pub open spec fn score_n_spec(income: int, work: Position, unit: Unit, parcel: Parcel, n: int) -> int {
    let rpt = rent_per_tenant_spec(unit.rent as int, n);
    if income < rpt {
        0
    } else {
        ratio_spec(income, rpt) * bundle_n_spec(work, unit, parcel, n) / SCALE as int
    }
}

/// The additive amenity bundle when the scoring tenant joins the current
/// occupants.
pub open spec fn bundle_spec(work: Position, unit: Unit, parcel: Parcel) -> int {
    bundle_n_spec(work, unit, parcel, unit.tenants@.len() as int + 1)
}

/// The desirability score of a unit for a tenant with the given income
/// and work position, in fixed point: the tenant is counted on top of
/// the occupants already on the unit's list.
pub open spec fn score_spec(income: int, work: Position, unit: Unit, parcel: Parcel) -> int {
    score_n_spec(income, work, unit, parcel, unit.tenants@.len() as int + 1)
}

/// One fixed-point square root, executably.
fn sqrt_fp(v: u64) -> (r: u64)
    ensures
        r == sqrt_fp_spec(v as int),
        is_isqrt(v as int * SCALE, r as int),
{
    proof {
        assert(v as int * (SCALE as int) < 0x1_0000_0000_0000_0000_0000_0000_0000_0000int)
            by (nonlinear_arith)
            requires
                v <= 0xFFFF_FFFF_FFFF_FFFFu64,
                SCALE as int == 1_000_000;
    }
    isqrt((v as u128) * (SCALE as u128))
}

/// The desirability score of a unit for a tenant with income `income`
/// working at `work`.  Zero exactly when the tenant cannot afford the
/// unit's rent share: past that gate the ratio is at least one and the
/// commute term at least one step, so the score stays strictly positive.
pub fn score(income: u64, work: Position, unit: &Unit, parcel: &Parcel) -> (s: u64)
    requires
        unit.wf(),
        parcel.wf(),
        income <= INCOME_MAX,
    ensures
        s == score_spec(income as int, work, *unit, *parcel),
        (s == 0) <==> (income < rent_per_tenant_spec(unit.rent as int,
            unit.tenants@.len() as int + 1)),
        s <= 100_000_000_000_000u64,
{
    let n_occ = unit.tenants.len();
    proof {
        assert(n_occ <= unit.capacity);
    }
    let n: u64 = (n_occ as u64) + 1;
    let q: u64 = unit.rent / n;
    let rpt: u64 = if q < 1 { 1 } else { q };
    if income < rpt {
        return 0;
    }
    let ghost rpt_i = rent_per_tenant_spec(unit.rent as int, unit.tenants@.len() as int + 1);
    proof {
        assert(rpt == rpt_i);
        assert(rpt >= 1);
    }

    // Affordability ratio: sqrt of income / rpt, in fixed point.
    proof {
        assert(income as int * (SCALE as int) * (SCALE as int)
            <= 1_000_000_000_000_000_000_000int) by (nonlinear_arith)
            requires
                income <= 1_000_000_000u64,
                SCALE as int == 1_000_000;
    }
    let num: u128 = (income as u128) * (SCALE as u128) * (SCALE as u128) / (rpt as u128);
    let ratio: u64 = isqrt(num);
    proof {
        assert(num <= 1_000_000_000_000_000_000_000u128) by (nonlinear_arith)
            requires
                income <= 1_000_000_000u64,
                rpt >= 1,
                num as int == income as int * (SCALE as int) * (SCALE as int) / (rpt as int),
                SCALE as int == 1_000_000;
        assert(ratio <= 40_000_000_000u64) by (nonlinear_arith)
            requires
                ratio >= 0,
                (ratio as int) * (ratio as int) <= num as int,
                num <= 1_000_000_000_000_000_000_000u128;
    }

    // Spaciousness: area surplus per occupant past MIN_AREA, compressed
    // by five nested square roots.
    let per128: u128 = (unit.area as u128) * (SCALE as u128) / (n as u128);
    proof {
        assert(per128 <= 1_000_000_000_000u128) by (nonlinear_arith)
            requires
                unit.area <= 1_000_000u64,
                n >= 1,
                per128 as int == unit.area as int * (SCALE as int) / (n as int),
                SCALE as int == 1_000_000;
    }
    let per: u64 = per128 as u64;
    let surplus: u64 = if per >= MIN_AREA * SCALE { per - MIN_AREA * SCALE } else { 0 };
    let v1 = sqrt_fp(surplus);
    proof {
        assert(v1 < 2_000_000_000u64) by (nonlinear_arith)
            requires
                (v1 as int) * (v1 as int) <= (surplus as int) * (SCALE as int),
                surplus <= 1_000_000_000_000u64;
    }
    let v2 = sqrt_fp(v1);
    proof {
        assert(v2 < 100_000_000u64) by (nonlinear_arith)
            requires
                (v2 as int) * (v2 as int) <= (v1 as int) * (SCALE as int),
                v1 < 2_000_000_000u64;
    }
    let v3 = sqrt_fp(v2);
    proof {
        assert(v3 < 10_000_000u64) by (nonlinear_arith)
            requires
                (v3 as int) * (v3 as int) <= (v2 as int) * (SCALE as int),
                v2 < 100_000_000u64;
    }
    let v4 = sqrt_fp(v3);
    proof {
        assert(v4 < 10_000_000u64) by (nonlinear_arith)
            requires
                (v4 as int) * (v4 as int) <= (v3 as int) * (SCALE as int),
                v3 < 10_000_000u64;
    }
    let v5 = sqrt_fp(v4);
    proof {
        assert(v5 < 10_000_000u64) by (nonlinear_arith)
            requires
                (v5 as int) * (v5 as int) <= (v4 as int) * (SCALE as int),
                v4 < 10_000_000u64;
    }

    // Commute: 1 at distance zero, else the reciprocal of the distance.
    let d2 = distance_squared(work, unit.pos);
    let commute = commute_term(d2);

    let bundle: u128 = (v5 as u128) + (parcel.desirability as u128) + (unit.condition as u128)
        + (commute as u128);
    proof {
        assert(bundle <= 2_000_000_000u128);
    }
    proof {
        assert(ratio as int * (bundle as int) <= 80_000_000_000_000_000_000int)
            by (nonlinear_arith)
            requires
                ratio <= 40_000_000_000u64,
                bundle <= 2_000_000_000u128;
    }
    let s128: u128 = (ratio as u128) * bundle / (SCALE as u128);
    proof {
        assert(s128 <= 100_000_000_000_000u128) by (nonlinear_arith)
            requires
                ratio as int * (bundle as int) <= 80_000_000_000_000_000_000int,
                bundle >= 0,
                ratio >= 0,
                s128 as int == ratio as int * (bundle as int) / (SCALE as int),
                SCALE as int == 1_000_000;
        assert(s128 as int == score_spec(income as int, work, *unit, *parcel));
        assert(s128 >= 1) by {
            lemma_ratio_at_least_one(income as int, rpt as int);
            assert(ratio as int >= SCALE as int);
            assert(bundle >= 1);
            assert(ratio as int * (bundle as int) >= SCALE as int) by (nonlinear_arith)
                requires
                    ratio as int >= 1_000_000,
                    bundle >= 1,
                    SCALE as int == 1_000_000;
            lemma_div_is_ordered(SCALE as int, ratio as int * (bundle as int), SCALE as int);
            lemma_div_by_self(SCALE as int);
        }
    }
    s128 as u64
}

/// Past the affordability gate the ratio term is at least `SCALE`: the
/// whole bundle is never scaled down.
pub proof fn lemma_ratio_at_least_one(income: int, rpt: int)
    requires
        1 <= rpt <= income,
    ensures
        ratio_spec(income, rpt) >= SCALE as int,
{
    let s2 = SCALE as int * SCALE as int;
    assert(rpt * s2 <= income * s2) by (nonlinear_arith)
        requires rpt <= income, s2 >= 0;
    lemma_div_is_ordered(rpt * s2, income * s2, rpt);
    assert((rpt * s2) / rpt == s2) by {
        lemma_div_multiples_vanish(s2, rpt);
        assert(rpt * s2 == s2 * rpt) by (nonlinear_arith);
    }
    assert(income * s2 / rpt >= s2);
    lemma_isqrt_monotone(s2, income * s2 / rpt);
    lemma_isqrt_scale();
    assert(income * SCALE * SCALE == income * s2) by (nonlinear_arith)
        requires s2 == SCALE as int * SCALE as int;
}

/// Desirability falls strictly with commute distance: of two units alike
/// in everything but position, both affordable to the tenant, the farther
/// one scores strictly less, as long as the nearer one's squared distance
/// is at least one and within `COMMUTE_STRICT_MAX`.  (At squared distance
/// zero and one the commute term is `1` in both cases, so the scores tie
/// there: the strict fall starts at distance one.)
pub proof fn lemma_score_falls_with_distance(
    income: int,
    work: Position,
    near: Unit,
    far: Unit,
    parcel: Parcel,
)
    requires
        near.wf(),
        far.wf(),
        far == (Unit { pos: far.pos, ..near }),
        rent_per_tenant_spec(near.rent as int, near.tenants@.len() as int + 1) <= income,
        1 <= dist_sq_spec(work, near.pos),
        dist_sq_spec(work, near.pos) <= COMMUTE_STRICT_MAX as int,
        dist_sq_spec(work, near.pos) < dist_sq_spec(work, far.pos),
    ensures
        score_spec(income, work, far, parcel) < score_spec(income, work, near, parcel),
{
    let rpt = rent_per_tenant_spec(near.rent as int, near.tenants@.len() as int + 1);
    assert(rpt >= 1);
    let ratio = ratio_spec(income, rpt);
    lemma_ratio_at_least_one(income, rpt);

    let d_near = dist_sq_spec(work, near.pos);
    let d_far = dist_sq_spec(work, far.pos);
    lemma_commute_strict(d_near, d_far);
    let b_near = bundle_spec(work, near, parcel);
    let b_far = bundle_spec(work, far, parcel);
    assert(b_far < b_near);

    // A ratio of at least SCALE turns a one-step bundle gap into a full
    // fixed-point step of the score.
    let s = SCALE as int;
    assert(ratio * b_near >= ratio * b_far + s) by (nonlinear_arith)
        requires
            s >= 0,
            ratio >= s,
            b_far < b_near;
    lemma_hoist_over_denominator(ratio * b_far, 1, SCALE as nat);
    assert((ratio * b_far) / s + 1 == (ratio * b_far + s) / s);
    lemma_div_is_ordered(ratio * b_far + s, ratio * b_near, s);
    assert((ratio * b_far) / s < (ratio * b_near) / s);
}

/// The rent share per head never falls when fewer heads split the rent.
pub proof fn lemma_rent_share_antitone(rent: int, n1: int, n2: int)
    requires
        0 <= rent,
        1 <= n1 <= n2,
    ensures
        rent_per_tenant_spec(rent, n1) >= rent_per_tenant_spec(rent, n2),
{
    lemma_div_is_ordered_by_denominator(rent, n1, n2);
}

/// A unit priced past a tenant's income stays past it after the tenant
/// leaves: the remaining heads' shares only grow, so the affordability
/// gate still yields a zero score at any occupant count no larger than
/// before.
pub proof fn lemma_gate_persists(income: int, work: Position, unit: Unit, parcel: Parcel,
    n1: int, n2: int)
    requires
        0 <= unit.rent,
        1 <= n1 <= n2,
        income < rent_per_tenant_spec(unit.rent as int, n2),
    ensures
        score_n_spec(income, work, unit, parcel, n1) == 0,
{
    lemma_rent_share_antitone(unit.rent as int, n1, n2);
}

} // verus!
