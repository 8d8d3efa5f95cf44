use rentsim::city::{City, Parcel, Unit, VacancyPool};
use rentsim::fixed::SCALE;
use rentsim::geo::Position;
use rentsim::landlord::Landlord;
use rentsim::tenant::Tenant;
use rentsim::AgentType;

fn pos(x: i32, y: i32) -> Position {
    Position { x, y }
}

fn unit(rent: u64, area: u64, condition: u64, capacity: usize, tenants: Vec<usize>) -> Unit {
    Unit {
        owner: 0,
        pos: pos(0, 0),
        parcel: 0,
        rent,
        area,
        condition,
        lease_month: 0,
        months_vacant: 0,
        tenants,
        capacity,
    }
}

fn one_parcel_city(units: Vec<Unit>) -> City {
    City {
        units,
        parcels: vec![Parcel { desirability: 0, neighborhood: Some(0) }],
        units_by_neighborhood: vec![Vec::new()],
    }
}

fn pool_of(city: &City) -> VacancyPool {
    let mut pool = VacancyPool::new();
    for (i, u) in city.units.iter().enumerate() {
        if u.tenants.len() < u.capacity {
            pool.insert(i);
        }
    }
    pool
}

fn assert_pool_consistent(city: &City, pool: &VacancyPool) {
    for (i, u) in city.units.iter().enumerate() {
        assert_eq!(pool.contains(i), u.tenants.len() < u.capacity, "unit {}", i);
    }
}

#[test]
fn affordability_gate_scores_zero() {
    let t = Tenant { id: 5, income: 50, unit: None, work: pos(0, 0), units: Vec::new() };
    // one sitting occupant, so the rent splits two ways: 60 > 50
    let u = unit(120, 100, SCALE, 2, vec![7]);
    let p = Parcel { desirability: SCALE, neighborhood: None };
    assert_eq!(t.desirability(&u, &p), 0);
}

#[test]
fn exact_score_at_gate_boundary() {
    // income exactly covers the rent share: ratio is 1, and with no
    // spaciousness, no parcel desirability and no condition the score
    // is the commute term alone: 1, at distance zero
    let t = Tenant { id: 1, income: 100, unit: None, work: pos(0, 0), units: Vec::new() };
    let u = unit(100, 50, 0, 1, Vec::new());
    let p = Parcel { desirability: 0, neighborhood: None };
    assert_eq!(t.desirability(&u, &p), SCALE);
}

#[test]
fn score_falls_with_commute_distance() {
    let t = Tenant { id: 1, income: 500, unit: None, work: pos(0, 0), units: Vec::new() };
    let near = Unit { pos: pos(1, 0), ..unit(100, 80, SCALE / 2, 1, Vec::new()) };
    let far = Unit { pos: pos(10, 0), ..unit(100, 80, SCALE / 2, 1, Vec::new()) };
    let p = Parcel { desirability: SCALE, neighborhood: None };
    assert!(t.desirability(&near, &p) > t.desirability(&far, &p));
}

#[test]
fn commute_ties_at_distance_zero_and_one() {
    let t = Tenant { id: 1, income: 500, unit: None, work: pos(0, 0), units: Vec::new() };
    let at_work = Unit { pos: pos(0, 0), ..unit(100, 80, SCALE / 2, 1, Vec::new()) };
    let next_door = Unit { pos: pos(1, 0), ..unit(100, 80, SCALE / 2, 1, Vec::new()) };
    let p = Parcel { desirability: 0, neighborhood: None };
    assert_eq!(t.desirability(&at_work, &p), t.desirability(&next_door, &p));
}

#[test]
fn housed_tenant_stays_put_mid_lease() {
    // affordable place, month is no lease boundary: nothing changes
    let mut city = one_parcel_city(vec![unit(40, 100, SCALE, 1, vec![3])]);
    let mut pool = pool_of(&city);
    let mut t = Tenant { id: 3, income: 500, unit: Some(0), work: pos(0, 0), units: Vec::new() };
    t.step(&mut city, 5, &mut pool);
    assert_eq!(t.unit, Some(0));
    assert_eq!(city.units[0].tenants, vec![3]);
    assert_eq!(pool.len(), 0);
    assert_pool_consistent(&city, &pool);
}

#[test]
fn lease_boundary_triggers_reconsideration() {
    // a far better unit waits in the pool: the tenant ignores it at
    // month six and takes it at month twelve
    let current = unit(500, 50, 0, 1, vec![3]);
    let better = Unit { rent: 10, area: 500, condition: SCALE, ..unit(10, 500, SCALE, 1, Vec::new()) };
    let mut city = one_parcel_city(vec![current, better]);
    city.parcels[0].desirability = SCALE;
    let mut pool = pool_of(&city);
    let mut t = Tenant { id: 3, income: 1000, unit: Some(0), work: pos(0, 0), units: Vec::new() };

    t.step(&mut city, 6, &mut pool);
    assert_eq!(t.unit, Some(0), "month six is no boundary");

    t.step(&mut city, 12, &mut pool);
    assert_eq!(t.unit, Some(1), "month twelve is a boundary");
    assert!(city.units[0].tenants.is_empty());
    assert_eq!(city.units[1].tenants, vec![3]);
    assert_pool_consistent(&city, &pool);
}

#[test]
fn unhoused_tenant_moves_into_pool_unit() {
    let mut city = one_parcel_city(vec![unit(30, 100, SCALE, 1, Vec::new())]);
    let mut pool = pool_of(&city);
    let mut t = Tenant { id: 2, income: 100, unit: None, work: pos(0, 0), units: Vec::new() };
    t.step(&mut city, 3, &mut pool);
    assert_eq!(t.unit, Some(0));
    assert_eq!(city.units[0].tenants, vec![2]);
    assert!(!pool.contains(0), "a full unit leaves the pool");
    assert_pool_consistent(&city, &pool);
}

#[test]
fn priced_out_tenant_vacates_and_searches() {
    // rent rises past the tenant's income through landlord policy; on
    // the next step the tenant vacates and lands in the affordable unit
    let current = unit(100, 50, SCALE / 2, 1, vec![5]);
    let refuge = unit(30, 100, SCALE, 1, Vec::new());
    let mut city = one_parcel_city(vec![current, refuge]);
    let mut pool = pool_of(&city);
    let mut landlord = Landlord::new(0, Vec::new());
    landlord.units.push(0);

    landlord.step(&mut city, 12);
    assert_eq!(city.units[0].rent, 105, "five percent up, rounded up");

    let mut t = Tenant { id: 5, income: 50, unit: Some(0), work: pos(0, 0), units: Vec::new() };
    t.step(&mut city, 13, &mut pool);
    assert_eq!(t.unit, Some(1));
    assert!(city.units[0].tenants.is_empty());
    assert_eq!(city.units[1].tenants, vec![5]);
    assert!(pool.contains(0));
    assert!(!pool.contains(1));
    assert_pool_consistent(&city, &pool);
}

#[test]
fn vacate_without_candidates_leaves_tenant_unhoused() {
    let mut city = one_parcel_city(vec![unit(200, 50, SCALE, 1, vec![4])]);
    let mut pool = pool_of(&city);
    let mut t = Tenant { id: 4, income: 50, unit: Some(0), work: pos(0, 0), units: Vec::new() };
    t.step(&mut city, 3, &mut pool);
    assert_eq!(t.unit, None);
    assert!(city.units[0].tenants.is_empty());
    assert!(pool.contains(0));
    assert_pool_consistent(&city, &pool);
}

#[test]
fn agent_kinds_are_two() {
    let kinds = [AgentType::Tenant, AgentType::Landlord];
    assert_eq!(kinds.len(), 2);
}

#[test]
fn new_landlord_tracks_neighborhoods() {
    let l = Landlord::new(7, vec![1, 2]);
    assert_eq!(l.id, 7);
    assert_eq!(l.maintenance, SCALE / 10);
    assert_eq!(l.tracks.len(), 2);
    assert_eq!(l.tracks[0].neighborhood, 1);
    assert_eq!(l.tracks[1].neighborhood, 2);
    assert!(l.tracks[0].rent_obvs.is_empty());
    assert_eq!(l.tracks[1].trend_est, 0);
    assert_eq!(l.tracks[1].invest_est, 0);
    assert!(l.units.is_empty());
}

#[test]
fn vacant_unit_marked_down_every_second_month() {
    let mut first = unit(100, 50, SCALE, 1, Vec::new());
    first.months_vacant = 1;
    let mut city = one_parcel_city(vec![first]);
    let mut l = Landlord::new(0, Vec::new());
    l.units.push(0);
    l.step(&mut city, 3);
    assert_eq!(city.units[0].months_vacant, 2);
    assert_eq!(city.units[0].rent, 98, "two percent off, rounded down");

    // the following month is odd: the rent stands
    l.step(&mut city, 4);
    assert_eq!(city.units[0].months_vacant, 3);
    assert_eq!(city.units[0].rent, 98);
}

#[test]
fn occupied_unit_raised_only_at_lease_boundary() {
    let mut city = one_parcel_city(vec![unit(100, 50, SCALE, 1, vec![9])]);
    let mut l = Landlord::new(0, Vec::new());
    l.units.push(0);

    l.step(&mut city, 7);
    assert_eq!(city.units[0].rent, 100, "no boundary, no raise");

    l.step(&mut city, 12);
    assert_eq!(city.units[0].rent, 105);

    l.step(&mut city, 24);
    assert_eq!(city.units[0].rent, 111, "ceil of 105 times 1.05");
    assert_eq!(city.units[0].months_vacant, 0);
}

#[test]
fn condition_stays_clamped() {
    let mut worn = unit(100, 50, 0, 1, Vec::new());
    worn.condition = 0;
    let mut fresh = unit(100, 50, SCALE, 1, vec![2]);
    fresh.condition = SCALE;
    let mut city = one_parcel_city(vec![worn, fresh]);
    let mut l = Landlord::new(0, Vec::new());
    l.units.push(0);
    l.units.push(1);
    for month in 1..6 {
        l.step(&mut city, month);
        assert!(city.units[0].condition <= SCALE);
        assert!(city.units[1].condition <= SCALE);
    }
}

#[test]
fn search_keeps_first_of_equally_scored_units() {
    let t = Tenant { id: 1, income: 200, unit: None, work: pos(0, 0), units: Vec::new() };
    let city = one_parcel_city(vec![
        unit(50, 80, SCALE / 2, 1, Vec::new()),
        unit(50, 80, SCALE / 2, 1, Vec::new()),
    ]);
    let forward = t.best_candidate(&city, &vec![0, 1]);
    let backward = t.best_candidate(&city, &vec![1, 0]);
    assert_eq!(forward.1, backward.1, "identical units score identically");
    assert!(forward.1 > 0);
    assert_eq!(forward.0, 0, "the first seen of a tie is kept");
    assert_eq!(backward.0, 1, "the first seen of a tie is kept");
}

#[test]
fn search_skips_full_and_unaffordable_units() {
    let t = Tenant { id: 1, income: 40, unit: None, work: pos(0, 0), units: Vec::new() };
    let city = one_parcel_city(vec![
        unit(30, 80, SCALE, 1, vec![8]),
        unit(900, 80, SCALE, 1, Vec::new()),
        unit(35, 80, SCALE, 1, Vec::new()),
    ]);
    let best = t.best_candidate(&city, &vec![0, 1, 2]);
    assert_eq!(best.0, 2, "the full unit and the dear unit are passed over");
    assert!(best.1 > 0);
    let none = t.best_candidate(&city, &vec![0, 1]);
    assert_eq!(none.1, 0, "no acceptable candidate leaves the zero seed");
}

#[test]
fn far_away_affordable_unit_still_scores() {
    // at two million grid units the commute term bottoms out at one
    // fixed-point step instead of vanishing: affordable means positive
    let t = Tenant { id: 1, income: 1, unit: None, work: pos(0, 0), units: Vec::new() };
    let far = Unit { pos: pos(2_000_000, 0), ..unit(1, 1, 0, 1, Vec::new()) };
    let p = Parcel { desirability: 0, neighborhood: None };
    assert_eq!(t.desirability(&far, &p), 1, "the floored commute step alone");
}
