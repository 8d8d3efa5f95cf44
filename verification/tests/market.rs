use rentsim::city::{City, Parcel, Unit, VacancyPool};
use rentsim::fixed::SCALE;
use rentsim::geo::Position;
use rentsim::landlord::{Landlord, NeighborhoodTrack};
use rentsim::tenant::Tenant;
use rentsim::trend::trend_estimate;

fn unit_at(rent: u64, area: u64, tenants: Vec<usize>) -> Unit {
    Unit {
        owner: 0,
        pos: Position { x: 0, y: 0 },
        parcel: 0,
        rent,
        area,
        condition: SCALE,
        lease_month: 0,
        months_vacant: 0,
        tenants,
        capacity: 2,
    }
}

fn track(neighborhood: usize, obs: Vec<Option<u64>>) -> NeighborhoodTrack {
    NeighborhoodTrack { neighborhood, rent_obvs: obs, trend_est: 0, invest_est: 0 }
}

fn landlord_with_tracks(tracks: Vec<NeighborhoodTrack>) -> Landlord {
    Landlord { id: 0, units: Vec::new(), maintenance: SCALE / 10, tracks, fit_failures: 0 }
}

#[test]
fn trend_projects_linear_sequence_exactly() {
    let ys: Vec<u64> = (10..=21).collect();
    assert_eq!(trend_estimate(&ys), 22);
}

#[test]
fn trend_is_flat_on_constant_sequence() {
    let ys: Vec<u64> = vec![7; 12];
    assert_eq!(trend_estimate(&ys), 7);
}

#[test]
fn estimates_unchanged_below_a_year_of_history() {
    let obs: Vec<Option<u64>> = (0..11).map(|v| Some(v as u64)).collect();
    let mut l = landlord_with_tracks(vec![track(0, obs)]);
    l.estimate_trends();
    assert_eq!(l.tracks[0].trend_est, 0);
    assert_eq!(l.tracks[0].invest_est, 0);
    assert_eq!(l.fit_failures, 0);
}

#[test]
fn full_year_of_history_yields_projection_and_appreciation() {
    let obs: Vec<Option<u64>> = (10..=21).map(Some).collect();
    let mut l = landlord_with_tracks(vec![track(0, obs)]);
    l.estimate_trends();
    assert_eq!(l.tracks[0].trend_est, 22);
    assert_eq!(l.tracks[0].invest_est, 1);
    assert_eq!(l.fit_failures, 0);
}

#[test]
fn missing_observation_leaves_estimates_stale_and_is_counted() {
    let mut obs: Vec<Option<u64>> = (10..=21).map(Some).collect();
    obs[5] = None;
    let mut l = landlord_with_tracks(vec![track(0, obs)]);
    l.tracks[0].trend_est = 42;
    l.tracks[0].invest_est = -3;
    l.estimate_trends();
    assert_eq!(l.tracks[0].trend_est, 42);
    assert_eq!(l.tracks[0].invest_est, -3);
    assert_eq!(l.fit_failures, 1);
}

#[test]
fn rent_estimation_takes_the_neighborhood_maximum() {
    // own occupied unit at 2 per area unit, a pricier neighbor at 3:
    // the sampled maximum is the neighbor's
    let own = unit_at(100, 50, vec![9]);
    let neighbor = unit_at(300, 100, Vec::new());
    let city = City {
        units: vec![own, neighbor],
        parcels: vec![Parcel { desirability: 0, neighborhood: Some(0) }],
        units_by_neighborhood: vec![vec![0, 1]],
    };
    let mut l = landlord_with_tracks(vec![track(0, Vec::new())]);
    l.units.push(0);
    l.estimate_rents(&city);
    assert_eq!(l.tracks[0].rent_obvs.len(), 1);
    assert_eq!(l.tracks[0].rent_obvs[0], Some(3 * SCALE));
}

#[test]
fn rent_estimation_without_any_unit_records_no_observation() {
    let city = City {
        units: Vec::new(),
        parcels: Vec::new(),
        units_by_neighborhood: vec![Vec::new()],
    };
    let mut l = landlord_with_tracks(vec![track(0, Vec::new())]);
    l.estimate_rents(&city);
    assert_eq!(l.tracks[0].rent_obvs.len(), 1);
    assert_eq!(l.tracks[0].rent_obvs[0], None);
}

#[test]
fn monthly_cycle_keeps_pool_and_occupancy_in_step() {
    // a small market run for two years: the pool invariant holds after
    // every tenant and landlord step
    let units = vec![
        unit_at(80, 60, vec![0]),
        unit_at(120, 90, Vec::new()),
        unit_at(60, 55, Vec::new()),
    ];
    let mut city = City {
        units,
        parcels: vec![Parcel { desirability: SCALE / 2, neighborhood: Some(0) }],
        units_by_neighborhood: vec![vec![0, 1, 2]],
    };
    let mut pool = VacancyPool::new();
    for (i, u) in city.units.iter().enumerate() {
        if u.tenants.len() < u.capacity {
            pool.insert(i);
        }
    }
    let mut tenants = vec![
        Tenant { id: 0, income: 300, unit: Some(0), work: Position { x: 2, y: 1 }, units: Vec::new() },
        Tenant { id: 1, income: 90, unit: None, work: Position { x: -3, y: 0 }, units: Vec::new() },
    ];
    let mut l = Landlord::new(0, vec![0]);
    l.units = vec![0, 1, 2];

    for month in 1..=24 {
        for t in tenants.iter_mut() {
            t.step(&mut city, month, &mut pool);
            for (i, u) in city.units.iter().enumerate() {
                assert_eq!(pool.contains(i), u.tenants.len() < u.capacity);
            }
        }
        l.step(&mut city, month);
        for (i, u) in city.units.iter().enumerate() {
            assert_eq!(pool.contains(i), u.tenants.len() < u.capacity);
        }
    }
    assert_eq!(l.tracks[0].rent_obvs.len(), 24);
}

#[test]
fn total_occupancy_counts_every_tenant_once() {
    let city = City {
        units: vec![
            unit_at(80, 60, vec![0, 3]),
            unit_at(120, 90, Vec::new()),
            unit_at(60, 55, vec![7]),
        ],
        parcels: vec![Parcel { desirability: 0, neighborhood: None }],
        units_by_neighborhood: Vec::new(),
    };
    assert_eq!(city.total_occupancy(), 3);
}
