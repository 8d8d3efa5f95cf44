//! The tenant agent: each month a tenant re-evaluates its housing, vacates
//! a unit it can no longer afford, samples the vacancy pool when it has
//! reason to search, and moves only when the best offer beats its current
//! place by more than the moving penalty.

use vstd::prelude::*;
use crate::geo::Position;
use crate::city::{City, Unit, Parcel, VacancyPool, pool_consistent, INCOME_MAX};
use crate::score::{score, score_spec, rent_per_tenant_spec, lemma_gate_persists};
use crate::rng::sample_ids;
use vstd::arithmetic::div_mod::{lemma_mod_multiples_basic, lemma_small_mod};

verus! {

/// How many pooled units a searching tenant looks at, at most.
pub const TENANT_SAMPLE_SIZE: usize = 30;

/// Flat disincentive against churn, in fixed point: ten score units,
/// subtracted from an offer before it is compared with the current place.
pub const MOVING_PENALTY: u64 = 10_000_000;

/// Whether a lease that started at `lease_month` stands at a whole-year
/// boundary in `month`: some full year has passed, to the month.
pub open spec fn lease_due(month: int, lease_month: int) -> bool {
    month > lease_month && (month - lease_month) % 12 == 0
}

/// Lease boundaries come exactly at each full year: twelve months after
/// the lease month, and every twelve thereafter, and never in between.
pub proof fn lemma_lease_boundary(lease_month: int, k: int)
    requires
        k >= 1,
    ensures
        lease_due(lease_month + 12 * k, lease_month),
        forall|m: int| lease_month < m < lease_month + 12 ==> !lease_due(m, lease_month),
{
    lemma_mod_multiples_basic(k, 12);
    assert(12 * k == k * 12);
    assert forall|m: int| lease_month < m < lease_month + 12 implies !lease_due(m, lease_month) by {
        lemma_small_mod((m - lease_month) as nat, 12nat);
    }
}

/// The score a tenant gives the unit with identifier `u` in `city`.
pub open spec fn unit_score(t: Tenant, c: City, u: int) -> int {
    score_spec(t.income as int, t.work, c.units@[u], c.parcels@[c.units@[u].parcel as int])
}

/// The reduction the housing search uses, walking the sampled unit
/// identifiers left to right: keep the unit with a free slot whose score
/// strictly beats every one seen before it.  The comparison is strict,
/// so of two equally scored units the one seen first is kept; when no
/// candidate scores above zero the result stays at its zero seed.
pub open spec fn search_best(t: Tenant, c: City, sample: Seq<usize>) -> (usize, int)
    decreases sample.len(),
{
    if sample.len() == 0 {
        (0usize, 0int)
    } else {
        let prev = search_best(t, c, sample.drop_last());
        let u = sample.last();
        if u < c.units@.len() && c.units@[u as int].has_free_slot()
            && unit_score(t, c, u as int) > prev.1 {
            (u, unit_score(t, c, u as int))
        } else {
            prev
        }
    }
}

/// A tenant: income, work position, current unit if housed, and the
/// informational history of units it has occupied.
pub struct Tenant {
    pub id: usize,
    /// Monthly income, a whole-currency integer.
    pub income: u64,
    /// The unit lived in, if any.
    pub unit: Option<usize>,
    /// Where the tenant works; commutes are measured from here.
    pub work: Position,
    /// Identifiers of units previously occupied.
    pub units: Vec<usize>,
}

impl Tenant {
    pub open spec fn wf(self) -> bool {
        self.income <= INCOME_MAX
    }

    /// The tenant's occupancy agrees with the city: it is on the occupant
    /// list of exactly the unit it points to.
    pub open spec fn occupancy_ok(self, city: City) -> bool {
        &&& (self.unit matches Some(u) ==> u < city.units@.len())
        &&& forall|u: usize| u < city.units@.len() ==>
            ((#[trigger] city.units@[u as int].tenants@.contains(self.id))
                <==> self.unit == Some(u))
    }

    /// The tenant's desirability score for a candidate unit: zero means
    /// unaffordable, never chosen, and nothing else ever scores zero.
    pub fn desirability(&self, unit: &Unit, parcel: &Parcel) -> (s: u64)
        requires
            self.wf(),
            unit.wf(),
            parcel.wf(),
        ensures
            s == score_spec(self.income as int, self.work, *unit, *parcel),
            (s == 0) <==> (self.income < rent_per_tenant_spec(unit.rent as int,
                unit.tenants@.len() as int + 1)),
            s <= 100_000_000_000_000u64,
    {
        score(self.income, self.work, unit, parcel)
    }

    /// Pick the best unit out of a sample of candidates: the first one
    /// seen, left to right, with a free occupant slot and a score
    /// strictly above every earlier candidate's.  A returned score of
    /// zero means no candidate was acceptable.
    pub fn best_candidate(&self, city: &City, sample: &Vec<usize>) -> (best: (usize, u64))
        requires
            self.wf(),
            city.wf(),
            forall|j: int| 0 <= j < sample@.len()
                ==> (#[trigger] sample@[j]) < city.units@.len(),
        ensures
            best.0 == search_best(*self, *city, sample@).0,
            best.1 as int == search_best(*self, *city, sample@).1,
            best.1 <= 100_000_000_000_000u64,
            best.1 > 0 ==> best.0 < city.units@.len()
                && city.units@[best.0 as int].has_free_slot()
                && best.1 as int == unit_score(*self, *city, best.0 as int)
                && sample@.contains(best.0),
    {
        let mut best_id: usize = 0;
        let mut best_score: u64 = 0;
        let mut i: usize = 0;
        while i < sample.len()
            invariant
                self.wf(),
                city.wf(),
                forall|j: int| 0 <= j < sample@.len()
                    ==> (#[trigger] sample@[j]) < city.units@.len(),
                i <= sample@.len(),
                best_score <= 100_000_000_000_000u64,
                best_id == search_best(*self, *city, sample@.take(i as int)).0,
                best_score as int == search_best(*self, *city, sample@.take(i as int)).1,
                best_score > 0 ==> best_id < city.units@.len()
                    && city.units@[best_id as int].has_free_slot()
                    && best_score as int == unit_score(*self, *city, best_id as int)
                    && sample@.take(i as int).contains(best_id),
            decreases sample@.len() - i,
        {
            let u_id = sample[i];
            proof {
                assert(sample@.take(i as int + 1).drop_last() =~= sample@.take(i as int));
                assert(sample@.take(i as int + 1).last() == sample@[i as int]);
            }
            let ghost pre_best = best_id;
            let ghost pre_score = best_score;
            let slot_free = {
                let u = &city.units[u_id];
                u.vacancies() > 0
            };
            if slot_free {
                let s = {
                    let u = &city.units[u_id];
                    let p = &city.parcels[u.parcel];
                    self.desirability(u, p)
                };
                if s > best_score {
                    best_id = u_id;
                    best_score = s;
                    proof {
                        assert(sample@.take(i as int + 1)[i as int] == u_id);
                    }
                }
            }
            proof {
                if best_score > 0 && best_id == pre_best && best_score == pre_score
                    && pre_score > 0 {
                    let q = choose|q: int| 0 <= q < i
                        && sample@.take(i as int)[q] == pre_best;
                    assert(sample@.take(i as int + 1)[q] == pre_best);
                }
            }
            i += 1;
        }
        proof {
            assert(sample@.take(sample@.len() as int) =~= sample@);
        }
        (best_id, best_score)
    }

    /// One month of tenant behavior: evaluate the current unit, vacate it
    /// if it has become unaffordable, search the vacancy pool when
    /// unhoused, at a lease boundary or newly evicted, and move only to a
    /// pooled unit whose score beats the current place by more than the
    /// moving penalty.
    pub fn step(&mut self, city: &mut City, month: usize, vacant_units: &mut VacancyPool)
        requires
            old(self).wf(),
            old(city).wf(),
            old(vacant_units).wf(),
            pool_consistent(*old(city), *old(vacant_units)),
            old(self).occupancy_ok(*old(city)),
        ensures
            final(self).wf(),
            final(city).wf(),
            final(vacant_units).wf(),
            pool_consistent(*final(city), *final(vacant_units)),
            final(self).occupancy_ok(*final(city)),
            final(city).units@.len() == old(city).units@.len(),
            final(city).parcels == old(city).parcels,
            final(city).units_by_neighborhood == old(city).units_by_neighborhood,
            // only occupant lists change
            forall|u: int| 0 <= u < old(city).units@.len() ==>
                #[trigger] final(city).units@[u]
                    == (Unit { tenants: final(city).units@[u].tenants, ..old(city).units@[u] }),
            // and only this tenant's membership in them
            forall|u: int, t: usize| 0 <= u < old(city).units@.len() && t != old(self).id ==>
                ((#[trigger] final(city).units@[u].tenants@.contains(t))
                    <==> old(city).units@[u].tenants@.contains(t)),
            final(self).id == old(self).id,
            final(self).income == old(self).income,
            final(self).work == old(self).work,
            final(self).units == old(self).units,
            // housed below a lease boundary in a place it can afford:
            // nothing changes at all
            (old(self).unit matches Some(u)
                && !lease_due(month as int, old(city).units@[u as int].lease_month as int)
                && unit_score(*old(self), *old(city), u as int) > 0)
                ==> (*final(self) == *old(self) && *final(city) == *old(city)
                    && *final(vacant_units) == *old(vacant_units)),
            // priced out below a lease boundary: the tenant vacates and
            // never lands back in the unit it could not afford
            (match old(self).unit {
                Some(u) => (!lease_due(month as int,
                        old(city).units@[u as int].lease_month as int)
                    && old(self).income < rent_per_tenant_spec(
                        old(city).units@[u as int].rent as int,
                        old(city).units@[u as int].tenants@.len() as int + 1))
                    ==> (final(self).unit != old(self).unit
                        && !final(city).units@[u as int].tenants@.contains(old(self).id)),
                None => true,
            }),
            // a move lands only on a pooled unit that scored above zero
            (match final(self).unit {
                Some(v) => final(self).unit != old(self).unit
                    ==> (old(vacant_units).has(v) && v < old(city).units@.len()
                        && unit_score(*old(self), *old(city), v as int) > 0),
                None => true,
            }),
            // a lease boundary makes the tenant reconsider, never leave:
            // it ends the month housed, in its old unit or a better one
            (match old(self).unit {
                Some(u) => lease_due(month as int,
                        old(city).units@[u as int].lease_month as int)
                    ==> final(self).unit is Some,
                None => true,
            }),
            // a housed tenant moving at a lease boundary only accepts an
            // offer that beats the moving penalty
            (match (old(self).unit, final(self).unit) {
                (Some(u), Some(v)) => (lease_due(month as int,
                        old(city).units@[u as int].lease_month as int) && v != u)
                    ==> unit_score(*old(self), *old(city), v as int) > MOVING_PENALTY,
                _ => true,
            }),
    {
        let unit_opt = self.unit;
        let mut reconsider: bool = false;
        let mut current_desirability: i64 = -1;
        let mut moving_penalty: u64 = 0;

        match unit_opt {
            None => {
                // Unhoused: always search, with no penalty and a current
                // desirability any non-zero offer beats.
                reconsider = true;
                current_desirability = -1;
                moving_penalty = 0;
            },
            Some(u_id) => {
                proof {
                    assert(u_id < city.units@.len());
                }
                let lm = city.units[u_id].lease_month;
                let due = month > lm && (month - lm) % 12 == 0;
                if due {
                    // At a whole-year boundary: reconsider, with the
                    // moving penalty weighing against churn.
                    reconsider = true;
                    current_desirability = 0;
                    moving_penalty = MOVING_PENALTY;
                } else {
                    let s = {
                        let u = &city.units[u_id];
                        let p = &city.parcels[u.parcel];
                        self.desirability(u, p)
                    };
                    if s == 0 {
                        // Can no longer afford the place: vacate at once
                        // and search like an unhoused tenant.
                        proof {
                            assert(city.units@[u_id as int].tenants@.contains(self.id));
                        }
                        let um = &mut city.units[u_id];
                        um.remove_tenant(self.id);
                        vacant_units.insert(u_id);
                        self.unit = None;
                        reconsider = true;
                        current_desirability = -1;
                        moving_penalty = 0;
                        proof {
                            assert(city.units@ == old(city).units@.update(u_id as int,
                                city.units@[u_id as int]));
                            assert forall|u: int| 0 <= u < city.units@.len() implies
                                (#[trigger] city.units@[u]).wf()
                                    && city.units@[u].parcel < city.parcels@.len() by {
                                if u != u_id as int {
                                    assert(city.units@[u] == old(city).units@[u]);
                                }
                            }
                            assert(city.wf());
                            assert(city.units@[u_id as int].has_free_slot());
                            assert(pool_consistent(*city, *vacant_units)) by {
                                assert forall|u: usize| u < city.units@.len() implies
                                    ((#[trigger] vacant_units.has(u))
                                        <==> city.units@[u as int].has_free_slot()) by {
                                    if u != u_id {
                                        assert(city.units@[u as int] == old(city).units@[u as int]);
                                        assert(vacant_units.has(u) <==> old(vacant_units).has(u));
                                    }
                                }
                            }
                            assert forall|u: usize| u < city.units@.len() implies
                                !(#[trigger] city.units@[u as int].tenants@.contains(self.id)) by {
                                if u != u_id {
                                    assert(city.units@[u as int] == old(city).units@[u as int]);
                                    assert(old(city).units@[u as int].tenants@.contains(
                                        old(self).id) <==> old(self).unit == Some(u));
                                }
                            }
                        }
                    } else {
                        // Affordable and not at a boundary: stay put.
                        reconsider = false;
                    }
                }
            },
        }

        if reconsider && vacant_units.len() > 0 {
            let sample = sample_ids(vacant_units.as_ids(), TENANT_SAMPLE_SIZE);
            proof {
                assert forall|j: int| 0 <= j < sample@.len() implies
                    (#[trigger] sample@[j]) < city.units@.len() by {
                    assert(vacant_units.has(sample@[j]));
                }
            }
            let chosen = self.best_candidate(city, &sample);
            let best_id = chosen.0;
            let best_score = chosen.1;
            proof {
                if best_score > 0 {
                    let q = choose|q: int| 0 <= q < sample@.len() && sample@[q] == best_id;
                    assert(vacant_units.has(best_id));
                }
            }
            let accept = best_score > 0
                && (best_score as i64) - (moving_penalty as i64) > current_desirability;
            if accept {
                proof {
                    // A tenant evicted by the affordability gate cannot be
                    // drawn back: with one head fewer, the old unit's rent
                    // share has only grown, so its pooled copy still
                    // scores zero and was never recorded as best.
                    match old(self).unit {
                        Some(u0) => {
                            let ou = old(city).units@[u0 as int];
                            if !lease_due(month as int, ou.lease_month as int)
                                && old(self).income < rent_per_tenant_spec(ou.rent as int,
                                    ou.tenants@.len() as int + 1) {
                                let n2 = ou.tenants@.len() as int + 1;
                                let n1 = n2 - 1;
                                let mu = city.units@[u0 as int];
                                assert(mu.rent == ou.rent);
                                assert(mu.tenants@.len() as int == n1 - 1);
                                lemma_gate_persists(old(self).income as int, old(self).work,
                                    mu, city.parcels@[mu.parcel as int], n1, n2);
                                assert(unit_score(*self, *city, u0 as int) == 0);
                                assert(best_id != u0);
                            }
                        },
                        None => {},
                    }
                }
                let ghost pre_move_city = *city;
                let ghost pre_move_pool = *vacant_units;
                match self.unit {
                    Some(old_id) => {
                        proof {
                            assert(old_id < city.units@.len());
                            assert(city.units@[old_id as int].tenants@.contains(self.id));
                        }
                        let um = &mut city.units[old_id];
                        um.remove_tenant(self.id);
                        vacant_units.insert(old_id);
                        self.unit = None;
                        proof {
                            assert(city.units@ == pre_move_city.units@.update(old_id as int,
                                city.units@[old_id as int]));
                            assert forall|u: int| 0 <= u < city.units@.len() implies
                                (#[trigger] city.units@[u]).wf()
                                    && city.units@[u].parcel < city.parcels@.len() by {
                                if u != old_id as int {
                                    assert(city.units@[u] == pre_move_city.units@[u]);
                                }
                            }
                            assert(city.wf());
                            assert(pool_consistent(*city, *vacant_units)) by {
                                assert forall|u: usize| u < city.units@.len() implies
                                    ((#[trigger] vacant_units.has(u))
                                        <==> city.units@[u as int].has_free_slot()) by {
                                    if u != old_id {
                                        assert(city.units@[u as int]
                                            == pre_move_city.units@[u as int]);
                                        assert(vacant_units.has(u) <==> pre_move_pool.has(u));
                                    }
                                }
                            }
                            assert forall|u: usize| u < city.units@.len() implies
                                !(#[trigger] city.units@[u as int].tenants@.contains(self.id)) by {
                                if u != old_id {
                                    assert(city.units@[u as int]
                                        == pre_move_city.units@[u as int]);
                                    assert(old(city).units@[u as int].tenants@.contains(
                                        old(self).id) <==> old(self).unit == Some(u));
                                }
                            }
                        }
                    },
                    None => {},
                }
                let ghost vac_city = *city;
                let ghost vac_pool = *vacant_units;
                proof {
                    // Wherever this path came from, the tenant is now on
                    // no occupant list at all.
                    assert forall|u: usize| u < vac_city.units@.len() implies
                        !(#[trigger] vac_city.units@[u as int].tenants@.contains(self.id)) by {
                        assert(old(city).units@[u as int].tenants@.contains(old(self).id)
                            <==> old(self).unit == Some(u));
                    }
                    assert(city.units@[best_id as int].has_free_slot());
                    assert(!city.units@[best_id as int].tenants@.contains(self.id));
                }
                self.unit = Some(best_id);
                let um = &mut city.units[best_id];
                um.add_tenant(self.id);
                proof {
                    assert(city.units@ == vac_city.units@.update(best_id as int,
                        city.units@[best_id as int]));
                    assert forall|u: int| 0 <= u < city.units@.len() implies
                        (#[trigger] city.units@[u]).wf()
                            && city.units@[u].parcel < city.parcels@.len() by {
                        if u != best_id as int {
                            assert(city.units@[u] == vac_city.units@[u]);
                        }
                    }
                    assert(city.wf());
                }
                let now_full = {
                    let u = &city.units[best_id];
                    u.vacancies() == 0
                };
                if now_full {
                    vacant_units.remove(best_id);
                }
                proof {
                    assert(pool_consistent(*city, *vacant_units)) by {
                        assert forall|u: usize| u < city.units@.len() implies
                            ((#[trigger] vacant_units.has(u))
                                <==> city.units@[u as int].has_free_slot()) by {
                            if u != best_id {
                                assert(city.units@[u as int] == vac_city.units@[u as int]);
                                assert(vacant_units.has(u) <==> vac_pool.has(u));
                            }
                        }
                        assert forall|u: usize| #[trigger] vacant_units.has(u) implies
                            u < city.units@.len() by {
                            if u != best_id {
                                assert(vac_pool.has(u));
                            }
                        }
                    }
                    assert(self.occupancy_ok(*city)) by {
                        assert forall|u: usize| u < city.units@.len() implies
                            ((#[trigger] city.units@[u as int].tenants@.contains(self.id))
                                <==> self.unit == Some(u)) by {
                            if u != best_id {
                                assert(city.units@[u as int] == vac_city.units@[u as int]);
                                assert(!vac_city.units@[u as int].tenants@.contains(self.id));
                            }
                        }
                    }
                }
            }
        }
    }
}

} // verus!
