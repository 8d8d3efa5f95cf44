//! The landlord agent: each month it samples market rents per tracked
//! neighborhood into a rolling observation history, fits a linear trend
//! to the last year of observations, and applies condition decay,
//! maintenance and the rent-adjustment policy to every unit it owns.

use vstd::prelude::*;
use crate::city::{City, Unit, VacancyPool, pool_consistent};
use crate::fixed::SCALE;
use crate::trend::{TREND_MONTHS, RPA_MAX, trend_estimate, trend_spec};
use crate::rng::{sample_ids, random_fraction};
use crate::tenant::lease_due;

verus! {

/// How many units a landlord samples from a neighborhood's index each
/// month.
pub const SAMPLE_SIZE: usize = 10;

/// Largest rent on which the yearly raise still lands inside the
/// admissible rent range.
pub const RENT_RAISE_LIMIT: u64 = 950_000_000;

/// A vacant unit's rent after the biennial markdown: two percent off,
/// rounded down.
pub open spec fn decayed_rent(rent: int) -> int {
    rent * 98 / 100
}

/// An occupied unit's rent after the yearly raise: five percent up,
/// rounded up.
pub open spec fn raised_rent(rent: int) -> int {
    (rent * 105 + 99) / 100
}

/// A unit's condition after one month: decay of a tenth of the drawn
/// fraction, offset by the maintenance rate, clamped into `[0, 1]`.
pub open spec fn cond_after_spec(c: int, d: int, m: int) -> int {
    let raw = c - d / 10 + m;
    if raw < 0 {
        0
    } else if raw > SCALE {
        SCALE as int
    } else {
        raw
    }
}

/// A landlord's view of one tracked neighborhood: the rolling history of
/// monthly market-rent observations and the estimates fitted to it.
pub struct NeighborhoodTrack {
    /// Index of the tracked neighborhood.
    pub neighborhood: usize,
    /// One entry per month: the sampled maximum rent-per-area in fixed
    /// point, or nothing when the month gave no observation.
    pub rent_obvs: Vec<Option<u64>>,
    /// Projected market rent-per-area, in fixed point.
    pub trend_est: i64,
    /// Projected appreciation: trend estimate minus latest observation.
    pub invest_est: i64,
}

impl NeighborhoodTrack {
    pub open spec fn wf(self) -> bool {
        forall|j: int| 0 <= j < self.rent_obvs@.len()
            ==> ((#[trigger] self.rent_obvs@[j]) matches Some(v) ==> v <= RPA_MAX)
    }

    /// The last year of observations is present and none is missing.
    pub open spec fn window_complete(self) -> bool {
        &&& self.rent_obvs@.len() >= TREND_MONTHS
        &&& forall|j: int|
            self.rent_obvs@.len() - TREND_MONTHS <= j < self.rent_obvs@.len()
                ==> (#[trigger] self.rent_obvs@[j]) is Some
    }

    /// The values of the last year of observations.
    pub open spec fn window(self) -> Seq<u64> {
        Seq::new(TREND_MONTHS as nat, |k: int|
            self.rent_obvs@[self.rent_obvs@.len() - TREND_MONTHS + k].unwrap())
    }
}

/// The landlord's unit at index `i` is occupied and sits in neighborhood
/// `nb`: its rent-per-area feeds that neighborhood's observation.
pub open spec fn own_occ_in(units: Seq<usize>, c: City, nb: usize, i: int) -> bool {
    &&& 0 <= i < units.len()
    &&& units[i] < c.units@.len()
    &&& c.units@[units[i] as int].tenants@.len() > 0
    &&& c.parcels@[c.units@[units[i] as int].parcel as int].neighborhood == Some(nb)
}

/// The rent-per-area of the unit with identifier `uid`.
pub open spec fn rpa_of(c: City, uid: int) -> int {
    c.units@[uid].rent_per_area_spec()
}

/// `m` is the rent-per-area of one of the observation sources for
/// neighborhood `nb`: a unit of the neighborhood's index, or one of the
/// landlord's own occupied units there.
pub open spec fn obs_source(units: Seq<usize>, c: City, nb: usize, m: int) -> bool {
    exists|k: int|
        #![trigger c.units_by_neighborhood@[nb as int]@[k]]
        #![trigger own_occ_in(units, c, nb, k)]
        (0 <= k < c.units_by_neighborhood@[nb as int]@.len()
            && m == rpa_of(c, c.units_by_neighborhood@[nb as int]@[k] as int))
        || (own_occ_in(units, c, nb, k) && m == rpa_of(c, units[k] as int))
}

/// One month of market sampling appends exactly one observation to a
/// track: the estimates stand, the history grows by one, and the new
/// entry is the maximum of the pooled rents-per-area — absent exactly
/// when the neighborhood offers no unit at all.
pub open spec fn obs_appended(ot: NeighborhoodTrack, nt: NeighborhoodTrack,
    units: Seq<usize>, c: City) -> bool {
    &&& nt.neighborhood == ot.neighborhood
    &&& nt.trend_est == ot.trend_est
    &&& nt.invest_est == ot.invest_est
    &&& nt.rent_obvs@.len() == ot.rent_obvs@.len() + 1
    &&& nt.rent_obvs@.take(ot.rent_obvs@.len() as int) == ot.rent_obvs@
    &&& ((nt.rent_obvs@.last() is None)
        <==> (c.units_by_neighborhood@[nt.neighborhood as int]@.len() == 0
            && forall|i: int| !own_occ_in(units, c, nt.neighborhood, i)))
    &&& (match nt.rent_obvs@.last() {
        Some(m) => {
            &&& m <= RPA_MAX
            &&& (forall|i: int| own_occ_in(units, c, nt.neighborhood, i)
                ==> m >= rpa_of(c, units[i] as int))
            &&& obs_source(units, c, nt.neighborhood, m as int)
        },
        None => true,
    })
}

/// One month of trend fitting on a track: a complete year of
/// observations yields the exact projection and appreciation, and
/// anything less, or a year with a gap, leaves the estimates stale.
pub open spec fn trends_fitted(ot: NeighborhoodTrack, nt: NeighborhoodTrack) -> bool {
    &&& nt.neighborhood == ot.neighborhood
    &&& nt.rent_obvs == ot.rent_obvs
    &&& (ot.rent_obvs@.len() < TREND_MONTHS
        ==> nt.trend_est == ot.trend_est && nt.invest_est == ot.invest_est)
    &&& (ot.rent_obvs@.len() >= TREND_MONTHS && !ot.window_complete()
        ==> nt.trend_est == ot.trend_est && nt.invest_est == ot.invest_est)
    &&& (ot.window_complete() ==> {
        &&& nt.trend_est == trend_spec(ot.window())
        &&& nt.invest_est == nt.trend_est - ot.window().last()
    })
}

/// How many tracks hold a year of history with a missing observation in
/// it, so that no trend could be fitted.
pub open spec fn failed_fits(tracks: Seq<NeighborhoodTrack>) -> int
    decreases tracks.len(),
{
    if tracks.len() == 0 {
        0
    } else {
        failed_fits(tracks.drop_last())
            + if tracks.last().rent_obvs@.len() >= TREND_MONTHS
                && !tracks.last().window_complete() { 1int } else { 0int }
    }
}

/// A landlord: its units, its maintenance investment rate, and one track
/// per neighborhood it watches.
pub struct Landlord {
    pub id: usize,
    /// Identifiers of the units this landlord owns.
    pub units: Vec<usize>,
    /// Fixed-point maintenance rate: a flat monthly offset against
    /// condition decay.
    pub maintenance: u64,
    /// One track per watched neighborhood.
    pub tracks: Vec<NeighborhoodTrack>,
    /// How many trend fits were skipped for missing observations.
    pub fit_failures: u64,
}

impl Landlord {
    pub open spec fn wf(self) -> bool {
        &&& self.maintenance <= SCALE
        &&& self.units@.no_duplicates()
        &&& forall|j: int| 0 <= j < self.tracks@.len() ==> (#[trigger] self.tracks@[j]).wf()
        &&& forall|j1: int, j2: int| 0 <= j1 < j2 < self.tracks@.len()
            ==> (#[trigger] self.tracks@[j1]).neighborhood
                != (#[trigger] self.tracks@[j2]).neighborhood
    }

    /// The landlord's references into the city are in range.
    pub open spec fn owns_in(self, city: City) -> bool {
        &&& forall|i: int| 0 <= i < self.units@.len()
            ==> (#[trigger] self.units@[i]) < city.units@.len()
        &&& forall|j: int| 0 <= j < self.tracks@.len()
            ==> (#[trigger] self.tracks@[j]).neighborhood
                < city.units_by_neighborhood@.len()
    }

    /// A fresh landlord watching the given neighborhoods, with empty
    /// histories, zero estimates, no units yet, and the default
    /// maintenance rate of one tenth.
    pub fn new(id: usize, neighborhood_ids: Vec<usize>) -> (l: Landlord)
        requires
            neighborhood_ids@.no_duplicates(),
        ensures
            l.wf(),
            l.id == id,
            l.units@.len() == 0,
            l.maintenance == SCALE / 10,
            l.fit_failures == 0,
            l.tracks@.len() == neighborhood_ids@.len(),
            forall|j: int| 0 <= j < l.tracks@.len() ==> {
                &&& (#[trigger] l.tracks@[j]).neighborhood == neighborhood_ids@[j]
                &&& l.tracks@[j].rent_obvs@.len() == 0
                &&& l.tracks@[j].trend_est == 0
                &&& l.tracks@[j].invest_est == 0
            },
    {
        let mut tracks: Vec<NeighborhoodTrack> = Vec::new();
        let mut i: usize = 0;
        while i < neighborhood_ids.len()
            invariant
                neighborhood_ids@.no_duplicates(),
                i <= neighborhood_ids@.len(),
                tracks@.len() == i,
                forall|j: int| 0 <= j < i ==> {
                    &&& (#[trigger] tracks@[j]).neighborhood == neighborhood_ids@[j]
                    &&& tracks@[j].rent_obvs@.len() == 0
                    &&& tracks@[j].trend_est == 0
                    &&& tracks@[j].invest_est == 0
                },
            decreases neighborhood_ids@.len() - i,
        {
            tracks.push(NeighborhoodTrack {
                neighborhood: neighborhood_ids[i],
                rent_obvs: Vec::new(),
                trend_est: 0,
                invest_est: 0,
            });
            i += 1;
        }
        proof {
            assert forall|j1: int, j2: int| 0 <= j1 < j2 < tracks@.len() implies
                tracks@[j1].neighborhood != tracks@[j2].neighborhood by {
                assert(neighborhood_ids@[j1] != neighborhood_ids@[j2]);
            }
        }
        Landlord { id, units: Vec::new(), maintenance: SCALE / 10, tracks, fit_failures: 0 }
    }

    /// Sample this month's market rents: for each tracked neighborhood,
    /// pool the rent-per-area of the landlord's own occupied units there
    /// with a random sample from the neighborhood's unit index, and
    /// append the maximum — or an explicit no-observation marker when
    /// neither source offers a unit.
    pub fn estimate_rents(&mut self, city: &City)
        requires
            old(self).wf(),
            city.wf(),
            old(self).owns_in(*city),
        ensures
            final(self).wf(),
            final(self).owns_in(*city),
            final(self).id == old(self).id,
            final(self).units == old(self).units,
            final(self).maintenance == old(self).maintenance,
            final(self).fit_failures == old(self).fit_failures,
            final(self).tracks@.len() == old(self).tracks@.len(),
            forall|j: int| 0 <= j < old(self).tracks@.len()
                ==> obs_appended(old(self).tracks@[j], #[trigger] final(self).tracks@[j],
                    old(self).units@, *city),
    {
        let ghost units_seq = self.units@;
        let n_tracks = self.tracks.len();
        let mut j: usize = 0;
        while j < n_tracks
            invariant
                self.units == old(self).units,
                self.id == old(self).id,
                self.maintenance == old(self).maintenance,
                self.fit_failures == old(self).fit_failures,
                self.wf(),
                city.wf(),
                old(self).wf(),
                old(self).owns_in(*city),
                old(self).units@ == units_seq,
                n_tracks == old(self).tracks@.len(),
                self.tracks@.len() == n_tracks,
                j <= n_tracks,
                forall|k: int| j <= k < n_tracks
                    ==> #[trigger] self.tracks@[k] == old(self).tracks@[k],
                forall|k: int| 0 <= k < j
                    ==> obs_appended(old(self).tracks@[k], #[trigger] self.tracks@[k],
                        units_seq, *city),
            decreases n_tracks - j,
        {
            let nb = self.tracks[j].neighborhood;
            proof {
                assert(old(self).tracks@[j as int].neighborhood == nb);
                assert(nb < city.units_by_neighborhood@.len());
            }

            // Pool the landlord's own occupied units in this neighborhood.
            let mut bucket: Vec<u64> = Vec::new();
            let mut i: usize = 0;
            while i < self.units.len()
                invariant
                    self.units@ == units_seq,
                    city.wf(),
                    old(self).owns_in(*city),
                    old(self).units@ == units_seq,
                    nb < city.units_by_neighborhood@.len(),
                    i <= units_seq.len(),
                    bucket@.len() > 0 ==> exists|ii: int|
                        own_occ_in(units_seq, *city, nb, ii),
                    forall|k: int| 0 <= k < bucket@.len() ==> {
                        &&& (#[trigger] bucket@[k]) <= RPA_MAX
                        &&& obs_source(units_seq, *city, nb, bucket@[k] as int)
                    },
                    forall|ii: int| 0 <= ii < i && own_occ_in(units_seq, *city, nb, ii)
                        ==> bucket@.contains((rpa_of(*city, units_seq[ii] as int)) as u64),
                decreases units_seq.len() - i,
            {
                let uid = self.units[i];
                let ghost pre = bucket@;
                proof {
                    assert(units_seq[i as int] < city.units@.len());
                }
                let occupied = city.units[uid].tenants.len() > 0;
                let mut in_nb = false;
                if occupied {
                    let pidx = city.units[uid].parcel;
                    in_nb = match city.parcels[pidx].neighborhood {
                        Some(n) => n == nb,
                        None => false,
                    };
                }
                if occupied && in_nb {
                    let r = city.units[uid].rent_per_area();
                    proof {
                        assert(r <= RPA_MAX) by (nonlinear_arith)
                            requires
                                r as int == (city.units@[uid as int].rent as int
                                    * (SCALE as int)) / (city.units@[uid as int].area as int),
                                city.units@[uid as int].area >= 1,
                                city.units@[uid as int].rent <= 1_000_000_000u64,
                                SCALE as int == 1_000_000,
                                RPA_MAX == 1_000_000_000_000_000u64;
                        assert(own_occ_in(units_seq, *city, nb, i as int));
                    }
                    bucket.push(r);
                    proof {
                        assert(bucket@[bucket@.len() - 1] == r);
                        assert(bucket@.contains(r));
                        assert(own_occ_in(units_seq, *city, nb, i as int)
                            && r == rpa_of(*city, units_seq[i as int] as int));
                        assert(obs_source(units_seq, *city, nb, r as int));
                        assert forall|q: int| 0 <= q < bucket@.len() implies
                            (#[trigger] bucket@[q]) <= RPA_MAX
                                && obs_source(units_seq, *city, nb, bucket@[q] as int) by {
                            if q < pre.len() {
                                assert(bucket@[q] == pre[q]);
                                assert(pre[q] <= RPA_MAX);
                                assert(obs_source(units_seq, *city, nb, pre[q] as int));
                            } else {
                                assert(bucket@[q] == r);
                            }
                        }
                    }
                } else {
                    proof {
                        assert(!own_occ_in(units_seq, *city, nb, i as int));
                    }
                }
                proof {
                    assert forall|ii: int| 0 <= ii < i + 1
                        && own_occ_in(units_seq, *city, nb, ii) implies
                        bucket@.contains((rpa_of(*city, units_seq[ii] as int)) as u64) by {
                        let w = (rpa_of(*city, units_seq[ii] as int)) as u64;
                        if ii < i {
                            let q = choose|q: int| 0 <= q < pre.len() && pre[q] == w;
                            assert(bucket@[q] == w);
                        } else {
                            assert(bucket@[bucket@.len() - 1] == w);
                        }
                    }
                }
                i += 1;
            }

            // Add a random sample of the whole neighborhood's units.
            let ghost own_len = bucket@.len();
            let sample = sample_ids(&city.units_by_neighborhood[nb], SAMPLE_SIZE);
            let ghost nb_len = city.units_by_neighborhood@[nb as int]@.len();
            let mut k: usize = 0;
            while k < sample.len()
                invariant
                    city.wf(),
                    nb < city.units_by_neighborhood@.len(),
                    forall|q: int| 0 <= q < sample@.len()
                        ==> city.units_by_neighborhood@[nb as int]@.contains(
                            #[trigger] sample@[q]),
                    k <= sample@.len(),
                    bucket@.len() == own_len + k,
                    forall|q: int| 0 <= q < bucket@.len() ==> {
                        &&& (#[trigger] bucket@[q]) <= RPA_MAX
                        &&& obs_source(units_seq, *city, nb, bucket@[q] as int)
                    },
                    forall|ii: int| own_occ_in(units_seq, *city, nb, ii)
                        ==> bucket@.contains((rpa_of(*city, units_seq[ii] as int)) as u64),
                decreases sample@.len() - k,
            {
                let uid = sample[k];
                proof {
                    assert(city.units_by_neighborhood@[nb as int]@.contains(uid));
                    assert(uid < city.units@.len());
                }
                let r = city.units[uid].rent_per_area();
                proof {
                    assert(r <= RPA_MAX) by (nonlinear_arith)
                        requires
                            r as int == (city.units@[uid as int].rent as int
                                * (SCALE as int)) / (city.units@[uid as int].area as int),
                            city.units@[uid as int].area >= 1,
                            city.units@[uid as int].rent <= 1_000_000_000u64,
                            SCALE as int == 1_000_000,
                            RPA_MAX == 1_000_000_000_000_000u64;
                }
                let ghost pre = bucket@;
                bucket.push(r);
                proof {
                    assert(bucket@[bucket@.len() - 1] == r);
                    let kk = choose|kk: int| 0 <= kk
                        < city.units_by_neighborhood@[nb as int]@.len()
                        && city.units_by_neighborhood@[nb as int]@[kk] == uid;
                    assert(0 <= kk < city.units_by_neighborhood@[nb as int]@.len()
                        && r as int == rpa_of(*city,
                            city.units_by_neighborhood@[nb as int]@[kk] as int));
                    assert(obs_source(units_seq, *city, nb, r as int));
                    assert forall|q: int| 0 <= q < bucket@.len() implies
                        (#[trigger] bucket@[q]) <= RPA_MAX
                            && obs_source(units_seq, *city, nb, bucket@[q] as int) by {
                        if q < pre.len() {
                            assert(bucket@[q] == pre[q]);
                            assert(pre[q] <= RPA_MAX);
                            assert(obs_source(units_seq, *city, nb, pre[q] as int));
                        } else {
                            assert(bucket@[q] == r);
                        }
                    }
                    assert forall|ii: int| own_occ_in(units_seq, *city, nb, ii) implies
                        bucket@.contains((rpa_of(*city, units_seq[ii] as int)) as u64) by {
                        let w = (rpa_of(*city, units_seq[ii] as int)) as u64;
                        let q = choose|q: int| 0 <= q < pre.len() && pre[q] == w;
                        assert(bucket@[q] == w);
                    }
                }
                k += 1;
            }
            proof {
                // the sample is empty exactly when the index is empty
                if nb_len > 0 {
                    assert(sample@.len() > 0);
                }
            }

            // This month's observation: the maximum of the pooled values,
            // or an explicit no-data marker.
            let obs: Option<u64>;
            if bucket.len() == 0 {
                obs = None;
                proof {
                    assert(nb_len == 0);
                    assert forall|ii: int|
                        !own_occ_in(units_seq, *city, nb, ii) by {
                        if own_occ_in(units_seq, *city, nb, ii) {
                            assert(bucket@.contains(
                                (rpa_of(*city, units_seq[ii] as int)) as u64));
                        }
                    }
                }
            } else {
                let mut mx: u64 = bucket[0];
                let mut q: usize = 1;
                proof {
                    assert(bucket@.contains(bucket@[0]));
                }
                while q < bucket.len()
                    invariant
                        1 <= q <= bucket@.len(),
                        bucket@.len() > 0,
                        bucket@.contains(mx),
                        forall|p: int| 0 <= p < q ==> bucket@[p] <= mx,
                    decreases bucket@.len() - q,
                {
                    let v = bucket[q];
                    if v > mx {
                        mx = v;
                        proof {
                            assert(bucket@.contains(bucket@[q as int]));
                        }
                    }
                    q += 1;
                }
                obs = Some(mx);
                proof {
                    let p = choose|p: int| 0 <= p < bucket@.len() && bucket@[p] == mx;
                    assert(bucket@[p] <= RPA_MAX);
                    assert(obs_source(units_seq, *city, nb, bucket@[p] as int));
                    // the bucket being non-empty names a source: an owned
                    // occupied unit or a unit of a non-empty index
                    if own_len > 0 {
                        assert(exists|ii: int| own_occ_in(units_seq, *city, nb, ii));
                    } else {
                        assert(bucket@.len() > own_len);
                        assert(nb_len > 0);
                    }
                }
            }

            let ghost pre_tracks = self.tracks@;
            let tr = &mut self.tracks[j];
            tr.rent_obvs.push(obs);
            proof {
                assert(self.tracks@ == pre_tracks.update(j as int, self.tracks@[j as int]));
                let ot = old(self).tracks@[j as int];
                let nt = self.tracks@[j as int];
                assert(nt.rent_obvs@ == ot.rent_obvs@.push(obs));
                assert(nt.rent_obvs@.take(ot.rent_obvs@.len() as int) =~= ot.rent_obvs@);
                assert(nt.rent_obvs@.last() == obs);
                assert(nt.wf()) by {
                    assert forall|p: int| 0 <= p < nt.rent_obvs@.len() implies
                        ((#[trigger] nt.rent_obvs@[p]) matches Some(v) ==> v <= RPA_MAX) by {
                        if p < ot.rent_obvs@.len() {
                            assert(nt.rent_obvs@[p] == ot.rent_obvs@[p]);
                        }
                    }
                }
                assert forall|k2: int| j + 1 <= k2 < n_tracks implies
                    #[trigger] self.tracks@[k2] == old(self).tracks@[k2] by {
                    assert(self.tracks@[k2] == pre_tracks[k2]);
                }
                if obs is Some {
                    let m = obs.unwrap();
                    let p = choose|p: int| 0 <= p < bucket@.len() && bucket@[p] == m;
                    assert forall|ii: int| own_occ_in(units_seq, *city, nb, ii) implies
                        m >= rpa_of(*city, units_seq[ii] as int) by {
                        let w = (rpa_of(*city, units_seq[ii] as int)) as u64;
                        assert(bucket@.contains(w));
                        let q = choose|q: int| 0 <= q < bucket@.len() && bucket@[q] == w;
                        assert(bucket@[q] <= m);
                    }
                }
                assert(obs_appended(ot, nt, units_seq, *city));
            }
            j += 1;
        }
    }

    /// Fit this month's trends: for every tracked neighborhood with a
    /// full year of observations, none missing, project the market rent
    /// one month ahead and record the expected appreciation; leave the
    /// estimates of every other neighborhood untouched and count each
    /// year-long history that a missing observation made unfittable.
    pub fn estimate_trends(&mut self)
        requires
            old(self).wf(),
            old(self).fit_failures + old(self).tracks@.len() <= u64::MAX,
        ensures
            final(self).wf(),
            final(self).id == old(self).id,
            final(self).units == old(self).units,
            final(self).maintenance == old(self).maintenance,
            final(self).tracks@.len() == old(self).tracks@.len(),
            final(self).fit_failures
                == old(self).fit_failures + failed_fits(old(self).tracks@),
            forall|j: int| #![trigger final(self).tracks@[j]]
                0 <= j < old(self).tracks@.len() ==> {
                let ot = old(self).tracks@[j];
                let nt = final(self).tracks@[j];
                &&& nt.neighborhood == ot.neighborhood
                &&& nt.rent_obvs == ot.rent_obvs
                &&& (ot.rent_obvs@.len() < TREND_MONTHS
                    ==> nt.trend_est == ot.trend_est && nt.invest_est == ot.invest_est)
                &&& (ot.rent_obvs@.len() >= TREND_MONTHS && !ot.window_complete()
                    ==> nt.trend_est == ot.trend_est && nt.invest_est == ot.invest_est)
                &&& (ot.window_complete() ==> {
                    &&& nt.trend_est == trend_spec(ot.window())
                    &&& nt.invest_est == nt.trend_est - ot.window().last()
                })
            },
    {
        let n_tracks = self.tracks.len();
        let mut j: usize = 0;
        while j < n_tracks
            invariant
                self.id == old(self).id,
                self.units == old(self).units,
                self.maintenance == old(self).maintenance,
                old(self).wf(),
                old(self).fit_failures + old(self).tracks@.len() <= u64::MAX,
                n_tracks == old(self).tracks@.len(),
                self.tracks@.len() == n_tracks,
                j <= n_tracks,
                self.fit_failures
                    == old(self).fit_failures + failed_fits(old(self).tracks@.take(j as int)),
                failed_fits(old(self).tracks@.take(j as int)) <= j,
                forall|k: int| j <= k < n_tracks
                    ==> #[trigger] self.tracks@[k] == old(self).tracks@[k],
                forall|k: int| #![trigger self.tracks@[k]]
                    0 <= k < j ==> {
                    let ot = old(self).tracks@[k];
                    let nt = self.tracks@[k];
                    &&& nt.wf()
                    &&& nt.neighborhood == ot.neighborhood
                    &&& nt.rent_obvs == ot.rent_obvs
                    &&& (ot.rent_obvs@.len() < TREND_MONTHS
                        ==> nt.trend_est == ot.trend_est && nt.invest_est == ot.invest_est)
                    &&& (ot.rent_obvs@.len() >= TREND_MONTHS && !ot.window_complete()
                        ==> nt.trend_est == ot.trend_est && nt.invest_est == ot.invest_est)
                    &&& (ot.window_complete() ==> {
                        &&& nt.trend_est == trend_spec(ot.window())
                        &&& nt.invest_est == nt.trend_est - ot.window().last()
                    })
                },
            decreases n_tracks - j,
        {
            proof {
                assert(old(self).tracks@.take(j as int + 1).drop_last()
                    =~= old(self).tracks@.take(j as int));
                assert(old(self).tracks@.take(j as int + 1).last()
                    == old(self).tracks@[j as int]);
            }
            let n = self.tracks[j].rent_obvs.len();
            if n >= TREND_MONTHS {
                let start = n - TREND_MONTHS;
                let mut window: Vec<u64> = Vec::new();
                let mut all_there = true;
                let mut k: usize = 0;
                while k < TREND_MONTHS
                    invariant
                        self.tracks@.len() == n_tracks,
                        0 <= (j as int) < n_tracks,
                        self.tracks@[j as int] == old(self).tracks@[j as int],
                        self.tracks@[j as int].wf(),
                        n == self.tracks@[j as int].rent_obvs@.len(),
                        n >= TREND_MONTHS,
                        start == n - TREND_MONTHS,
                        k <= TREND_MONTHS,
                        all_there ==> window@.len() == k,
                        all_there ==> forall|p: int| 0 <= p < k ==> {
                            &&& (#[trigger] self.tracks@[j as int].rent_obvs@[start + p]) is Some
                            &&& window@[p]
                                == self.tracks@[j as int].rent_obvs@[start + p].unwrap()
                        },
                        !all_there ==> exists|p: int| start <= p < n
                            && (#[trigger] self.tracks@[j as int].rent_obvs@[p]) is None,
                    decreases TREND_MONTHS - k,
                {
                    match self.tracks[j].rent_obvs[start + k] {
                        Some(v) => {
                            if all_there {
                                window.push(v);
                            }
                        },
                        None => {
                            all_there = false;
                        },
                    }
                    k += 1;
                }
                if all_there {
                    proof {
                        let ot = old(self).tracks@[j as int];
                        assert(ot.window_complete()) by {
                            assert forall|p: int| n - TREND_MONTHS <= p < n implies
                                (#[trigger] ot.rent_obvs@[p]) is Some by {
                                assert(ot.rent_obvs@[start + (p - start)] is Some);
                            }
                        }
                        assert(window@ =~= ot.window());
                        assert forall|p: int| 0 <= p < window@.len() implies
                            (#[trigger] window@[p]) <= RPA_MAX by {
                            assert(ot.rent_obvs@[start + p] matches Some(v)
                                ==> v <= RPA_MAX);
                        }
                    }
                    let t = trend_estimate(&window);
                    let last = window[TREND_MONTHS - 1];
                    let ghost pre_tracks = self.tracks@;
                    let tr = &mut self.tracks[j];
                    tr.trend_est = t;
                    tr.invest_est = t - (last as i64);
                    proof {
                        assert(self.tracks@ == pre_tracks.update(j as int,
                            self.tracks@[j as int]));
                    }
                } else {
                    self.fit_failures = self.fit_failures + 1;
                    proof {
                        assert(!old(self).tracks@[j as int].window_complete());
                    }
                }
            } else {
                proof {
                    assert(old(self).tracks@[j as int].rent_obvs@.len() < TREND_MONTHS);
                }
            }
            j += 1;
        }
        proof {
            assert(old(self).tracks@.take(n_tracks as int) =~= old(self).tracks@);
        }
    }
}

/// What one month of landlord policy does to a unit the landlord owns:
/// the condition moves by maintenance minus a drawn decay and stays
/// clamped; a vacant unit ages one month and takes the two-percent
/// markdown on every second vacant month; an occupied unit at a lease
/// boundary takes the five-percent raise; nothing else changes.
pub open spec fn unit_after_policy(ou: Unit, nu: Unit, month: int, maintenance: int) -> bool {
    &&& nu == (Unit { rent: nu.rent, condition: nu.condition,
        months_vacant: nu.months_vacant, ..ou })
    &&& nu.condition <= SCALE
    &&& (exists|d: int| 0 <= d < SCALE
        && nu.condition == cond_after_spec(ou.condition as int, d, maintenance))
    &&& (ou.tenants@.len() == 0 ==> {
        &&& nu.months_vacant == ou.months_vacant + 1
        &&& nu.rent == (if (ou.months_vacant + 1) % 2 == 0 {
            decayed_rent(ou.rent as int)
        } else {
            ou.rent as int
        })
    })
    &&& (ou.tenants@.len() > 0 ==> {
        &&& nu.months_vacant == ou.months_vacant
        &&& nu.rent == (if lease_due(month, ou.lease_month as int) {
            raised_rent(ou.rent as int)
        } else {
            ou.rent as int
        })
    })
}

/// A landlord's step never touches occupancy, so the vacancy-pool
/// invariant survives it: pool membership depends only on occupant
/// counts and capacities, and both are left as they were.
pub proof fn lemma_landlord_step_keeps_pool(c1: City, c2: City, pool: VacancyPool)
    requires
        c1.units@.len() == c2.units@.len(),
        forall|u: usize| u < c1.units@.len()
            ==> (#[trigger] c2.units@[u as int]).tenants == c1.units@[u as int].tenants
                && c2.units@[u as int].capacity == c1.units@[u as int].capacity,
        pool_consistent(c1, pool),
    ensures
        pool_consistent(c2, pool),
{
    assert forall|u: usize| u < c2.units@.len() implies
        ((#[trigger] pool.has(u)) <==> c2.units@[u as int].has_free_slot()) by {
        assert(c2.units@[u as int].tenants == c1.units@[u as int].tenants);
    }
}

impl Landlord {
    /// One month of landlord behavior: sample market rents and update
    /// the observation history, fit trends where a full year of data
    /// stands, then run maintenance and the rent policy over every
    /// owned unit.
    pub fn step(&mut self, city: &mut City, month: usize)
        requires
            old(self).wf(),
            old(city).wf(),
            old(self).owns_in(*old(city)),
            old(self).fit_failures + old(self).tracks@.len() <= u64::MAX,
            forall|i: int| 0 <= i < old(self).units@.len() ==> {
                &&& (#[trigger] old(city).units@[old(self).units@[i] as int]).rent
                    <= RENT_RAISE_LIMIT
                &&& old(city).units@[old(self).units@[i] as int].months_vacant
                    < 1_000_000_000
            },
        ensures
            final(self).wf(),
            final(city).wf(),
            final(self).owns_in(*final(city)),
            final(self).id == old(self).id,
            final(self).units == old(self).units,
            final(self).maintenance == old(self).maintenance,
            final(city).units@.len() == old(city).units@.len(),
            final(city).parcels == old(city).parcels,
            final(city).units_by_neighborhood == old(city).units_by_neighborhood,
            // occupancy is untouched everywhere
            forall|u: usize| u < old(city).units@.len()
                ==> (#[trigger] final(city).units@[u as int]).tenants
                        == old(city).units@[u as int].tenants
                    && final(city).units@[u as int].capacity
                        == old(city).units@[u as int].capacity,
            // units the landlord does not own are left alone entirely
            forall|u: usize| u < old(city).units@.len() && !old(self).units@.contains(u)
                ==> final(city).units@[u as int] == old(city).units@[u as int],
            // each owned unit takes exactly one month of policy
            forall|i: int| 0 <= i < old(self).units@.len()
                ==> unit_after_policy(
                    old(city).units@[old(self).units@[i] as int],
                    #[trigger] final(city).units@[old(self).units@[i] as int],
                    month as int, old(self).maintenance as int),
            // the observation history grew by one month everywhere
            final(self).tracks@.len() == old(self).tracks@.len(),
            forall|j: int| 0 <= j < old(self).tracks@.len()
                ==> (#[trigger] final(self).tracks@[j]).neighborhood
                        == old(self).tracks@[j].neighborhood
                    && final(self).tracks@[j].rent_obvs@.len()
                        == old(self).tracks@[j].rent_obvs@.len() + 1,
            // too little history leaves a neighborhood's estimates stale
            forall|j: int| 0 <= j < old(self).tracks@.len()
                && old(self).tracks@[j].rent_obvs@.len() + 1 < TREND_MONTHS
                ==> (#[trigger] final(self).tracks@[j]).trend_est
                        == old(self).tracks@[j].trend_est
                    && final(self).tracks@[j].invest_est == old(self).tracks@[j].invest_est,
            // a year of history complete after this month's sampling is
            // fitted exactly: the projection over the final window, and
            // the appreciation against its latest observation
            forall|j: int| 0 <= j < old(self).tracks@.len()
                && (#[trigger] final(self).tracks@[j]).window_complete()
                ==> final(self).tracks@[j].trend_est
                        == trend_spec(final(self).tracks@[j].window())
                    && final(self).tracks@[j].invest_est
                        == final(self).tracks@[j].trend_est
                            - final(self).tracks@[j].window().last(),
    {
        let ghost units_seq = self.units@;
        self.estimate_rents(city);
        let ghost post_rents = *self;
        self.estimate_trends();
        proof {
            assert forall|j: int| 0 <= j < old(self).tracks@.len()
                && (#[trigger] self.tracks@[j]).window_complete() implies
                self.tracks@[j].trend_est == trend_spec(self.tracks@[j].window())
                    && self.tracks@[j].invest_est
                        == self.tracks@[j].trend_est - self.tracks@[j].window().last() by {
                let mt = post_rents.tracks@[j];
                let nt = self.tracks@[j];
                assert(trends_fitted(mt, nt));
                assert(mt.rent_obvs@ == nt.rent_obvs@);
                assert(mt.window_complete());
                assert(mt.window() =~= nt.window());
            }
        }

        // Maintenance: decay each owned unit's condition by a fresh draw,
        // offset by the maintenance rate, clamped into range.
        let mut i: usize = 0;
        while i < self.units.len()
            invariant
                self.units@ == units_seq,
                old(self).units@ == units_seq,
                self.maintenance == old(self).maintenance,
                self.maintenance <= SCALE,
                old(self).wf(),
                old(self).owns_in(*old(city)),
                city.wf(),
                city.units@.len() == old(city).units@.len(),
                city.parcels == old(city).parcels,
                city.units_by_neighborhood == old(city).units_by_neighborhood,
                i <= units_seq.len(),
                forall|u: usize| u < old(city).units@.len()
                    && !units_seq.take(i as int).contains(u)
                    ==> city.units@[u as int] == old(city).units@[u as int],
                forall|k: int| #![trigger units_seq[k]]
                    0 <= k < i ==> {
                    let uid = units_seq[k] as int;
                    let ou = old(city).units@[uid];
                    let nu = city.units@[uid];
                    &&& nu == (Unit { condition: nu.condition, ..ou })
                    &&& nu.condition <= SCALE
                    &&& (exists|d: int| 0 <= d < SCALE && nu.condition
                        == cond_after_spec(ou.condition as int, d, self.maintenance as int))
                },
            decreases units_seq.len() - i,
        {
            let uid = self.units[i];
            proof {
                assert(units_seq[i as int] < old(city).units@.len());
                if units_seq.take(i as int).contains(uid) {
                    let q = choose|q: int| 0 <= q < i && units_seq.take(i as int)[q] == uid;
                    assert(units_seq[q] == units_seq[i as int]);
                    assert(false);
                }
            }
            let decay = random_fraction();
            let dec = decay / 10;
            let ghost pre_units = city.units@;
            let u = &mut city.units[uid];
            let c = u.condition;
            let mut nc: u64 = if c + self.maintenance >= dec {
                c + self.maintenance - dec
            } else {
                0
            };
            if nc > SCALE {
                nc = SCALE;
            }
            u.condition = nc;
            proof {
                assert(city.units@ == pre_units.update(uid as int, city.units@[uid as int]));
                assert(city.units@[uid as int].condition as int
                    == cond_after_spec(old(city).units@[uid as int].condition as int,
                        decay as int, self.maintenance as int));
                assert(units_seq.take(i as int + 1) =~= units_seq.take(i as int).push(uid));
                assert forall|u2: usize| u2 < old(city).units@.len()
                    && !units_seq.take(i as int + 1).contains(u2) implies
                    city.units@[u2 as int] == old(city).units@[u2 as int] by {
                    assert(units_seq.take(i as int + 1)[i as int] == uid);
                    if !units_seq.take(i as int).contains(u2) && u2 != uid {
                        assert(city.units@[u2 as int] == pre_units[u2 as int]);
                    } else if units_seq.take(i as int).contains(u2) {
                        let q = choose|q: int| 0 <= q < i
                            && units_seq.take(i as int)[q] == u2;
                        assert(units_seq.take(i as int + 1)[q] == u2);
                        assert(false);
                    }
                }
                assert forall|u2: int| 0 <= u2 < city.units@.len() implies
                    (#[trigger] city.units@[u2]).wf()
                        && city.units@[u2].parcel < city.parcels@.len() by {
                    if u2 != uid as int {
                        assert(city.units@[u2] == pre_units[u2]);
                    }
                }
            }
            i += 1;
        }

        // Rent policy: age and mark down vacant units, raise occupied
        // units at their lease boundaries.
        let ghost cond_city = *city;
        let mut i2: usize = 0;
        while i2 < self.units.len()
            invariant
                self.units@ == units_seq,
                old(self).units@ == units_seq,
                old(self).wf(),
                old(self).owns_in(*old(city)),
                city.wf(),
                city.units@.len() == cond_city.units@.len(),
                cond_city.units@.len() == old(city).units@.len(),
                city.parcels == cond_city.parcels,
                city.units_by_neighborhood == cond_city.units_by_neighborhood,
                forall|i3: int| 0 <= i3 < units_seq.len() ==> {
                    &&& (#[trigger] cond_city.units@[units_seq[i3] as int]).rent
                        <= RENT_RAISE_LIMIT
                    &&& cond_city.units@[units_seq[i3] as int].months_vacant < 1_000_000_000
                    &&& cond_city.units@[units_seq[i3] as int].tenants
                        == old(city).units@[units_seq[i3] as int].tenants
                    &&& cond_city.units@[units_seq[i3] as int].lease_month
                        == old(city).units@[units_seq[i3] as int].lease_month
                },
                i2 <= units_seq.len(),
                forall|u: usize| u < cond_city.units@.len()
                    && !units_seq.take(i2 as int).contains(u)
                    ==> city.units@[u as int] == cond_city.units@[u as int],
                forall|k: int| #![trigger units_seq[k]]
                    0 <= k < i2 ==> {
                    let uid = units_seq[k] as int;
                    let ou = cond_city.units@[uid];
                    let nu = city.units@[uid];
                    &&& nu == (Unit { rent: nu.rent, months_vacant: nu.months_vacant, ..ou })
                    &&& (ou.tenants@.len() == 0 ==> {
                        &&& nu.months_vacant == ou.months_vacant + 1
                        &&& nu.rent == (if (ou.months_vacant + 1) % 2 == 0 {
                            decayed_rent(ou.rent as int)
                        } else {
                            ou.rent as int
                        })
                    })
                    &&& (ou.tenants@.len() > 0 ==> {
                        &&& nu.months_vacant == ou.months_vacant
                        &&& nu.rent == (if lease_due(month as int,
                                ou.lease_month as int) {
                            raised_rent(ou.rent as int)
                        } else {
                            ou.rent as int
                        })
                    })
                },
            decreases units_seq.len() - i2,
        {
            let uid = self.units[i2];
            proof {
                assert(units_seq[i2 as int] < cond_city.units@.len());
                if units_seq.take(i2 as int).contains(uid) {
                    let q = choose|q: int| 0 <= q < i2
                        && units_seq.take(i2 as int)[q] == uid;
                    assert(units_seq[q] == units_seq[i2 as int]);
                    assert(false);
                }
                assert(city.units@[uid as int] == cond_city.units@[uid as int]);
            }
            let ghost pre_units = city.units@;
            let u = &mut city.units[uid];
            if u.tenants.len() == 0 {
                u.months_vacant = u.months_vacant + 1;
                if u.months_vacant % 2 == 0 {
                    let nr = u.rent * 98 / 100;
                    proof {
                        assert(nr <= u.rent) by (nonlinear_arith)
                            requires nr as int == u.rent as int * 98 / 100, u.rent >= 0;
                    }
                    u.rent = nr;
                }
            } else {
                if month > u.lease_month && (month - u.lease_month) % 12 == 0 {
                    let nr = (u.rent * 105 + 99) / 100;
                    proof {
                        assert(nr <= 1_000_000_000u64) by (nonlinear_arith)
                            requires
                                nr as int == (u.rent as int * 105 + 99) / 100,
                                u.rent <= 950_000_000u64;
                    }
                    u.rent = nr;
                }
            }
            proof {
                assert(city.units@ == pre_units.update(uid as int, city.units@[uid as int]));
                assert(units_seq.take(i2 as int + 1) =~= units_seq.take(i2 as int).push(uid));
                assert forall|u2: usize| u2 < cond_city.units@.len()
                    && !units_seq.take(i2 as int + 1).contains(u2) implies
                    city.units@[u2 as int] == cond_city.units@[u2 as int] by {
                    assert(units_seq.take(i2 as int + 1)[i2 as int] == uid);
                    if !units_seq.take(i2 as int).contains(u2) && u2 != uid {
                        assert(city.units@[u2 as int] == pre_units[u2 as int]);
                    } else if units_seq.take(i2 as int).contains(u2) {
                        let q = choose|q: int| 0 <= q < i2
                            && units_seq.take(i2 as int)[q] == u2;
                        assert(units_seq.take(i2 as int + 1)[q] == u2);
                        assert(false);
                    }
                }
                assert forall|u2: int| 0 <= u2 < city.units@.len() implies
                    (#[trigger] city.units@[u2]).wf()
                        && city.units@[u2].parcel < city.parcels@.len() by {
                    if u2 != uid as int {
                        assert(city.units@[u2] == pre_units[u2]);
                    }
                }
            }
            i2 += 1;
        }

        proof {
            assert(units_seq.take(units_seq.len() as int) =~= units_seq);
            assert forall|i3: int| 0 <= i3 < units_seq.len() implies
                unit_after_policy(old(city).units@[units_seq[i3] as int],
                    #[trigger] city.units@[units_seq[i3] as int],
                    month as int, old(self).maintenance as int) by {
                let uid = units_seq[i3] as int;
                assert(cond_city.units@[uid].tenants@ == old(city).units@[uid].tenants@);
                let d = choose|d: int| 0 <= d < SCALE && cond_city.units@[uid].condition
                    == cond_after_spec(old(city).units@[uid].condition as int, d,
                        self.maintenance as int);
                assert(city.units@[uid].condition == cond_city.units@[uid].condition);
                assert(0 <= d < SCALE && city.units@[uid].condition
                    == cond_after_spec(old(city).units@[uid].condition as int, d,
                        old(self).maintenance as int));
            }
            assert forall|u: usize| u < old(city).units@.len()
                && !units_seq.contains(u) implies
                city.units@[u as int] == old(city).units@[u as int] by {
                assert(units_seq.take(i2 as int) =~= units_seq);
                assert(units_seq.take(i as int) =~= units_seq);
                assert(!units_seq.take(i2 as int).contains(u));
                assert(city.units@[u as int] == cond_city.units@[u as int]);
                assert(!units_seq.take(i as int).contains(u));
                assert(cond_city.units@[u as int] == old(city).units@[u as int]);
            }
            assert forall|u: usize| u < old(city).units@.len() implies
                (#[trigger] city.units@[u as int]).tenants
                        == old(city).units@[u as int].tenants
                    && city.units@[u as int].capacity
                        == old(city).units@[u as int].capacity by {
                if units_seq.contains(u) {
                    let q = choose|q: int| 0 <= q < units_seq.len() && units_seq[q] == u;
                    assert(unit_after_policy(old(city).units@[units_seq[q] as int],
                        city.units@[units_seq[q] as int],
                        month as int, old(self).maintenance as int));
                } else {
                    assert(units_seq.take(i2 as int) =~= units_seq);
                    assert(units_seq.take(i as int) =~= units_seq);
                    assert(!units_seq.take(i2 as int).contains(u));
                    assert(city.units@[u as int] == cond_city.units@[u as int]);
                    assert(!units_seq.take(i as int).contains(u));
                    assert(cond_city.units@[u as int] == old(city).units@[u as int]);
                }
            }
        }
    }
}

} // verus!
