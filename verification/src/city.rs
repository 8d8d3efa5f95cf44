//! The data the agents act on: units, parcels, the city storage the driver
//! hands into each step, and the shared vacancy pool.  The pool is a set of
//! unit identifiers kept in lockstep with occupancy: an identifier is in
//! the pool exactly when its unit still has a free occupant slot.

use vstd::prelude::*;
use crate::geo::Position;
use crate::fixed::SCALE;

verus! {

/// Upper bound on monthly rents the model admits; keeps every fixed-point
/// product within machine range.
pub const RENT_MAX: u64 = 1_000_000_000;

/// Upper bound on tenant incomes the model admits.
pub const INCOME_MAX: u64 = 1_000_000_000;

/// Upper bound on floor areas the model admits.
pub const AREA_MAX: u64 = 1_000_000;

/// Upper bound on a parcel's fixed-point location desirability.
pub const DESIRABILITY_MAX: u64 = 1_000_000_000;

/// Upper bound on a unit's occupant capacity.
pub const CAPACITY_MAX: usize = 1_000_000;

/// A parcel of land: what a unit's location contributes to its score, and
/// the neighborhood the parcel belongs to, if any.
pub struct Parcel {
    /// Location desirability, in fixed point.
    pub desirability: u64,
    /// Index of the parcel's neighborhood, if it lies in one.
    pub neighborhood: Option<usize>,
}

impl Parcel {
    pub open spec fn wf(self) -> bool {
        self.desirability <= DESIRABILITY_MAX
    }
}

/// A housing unit: identified by its index in the city's unit table.
pub struct Unit {
    /// Index of the landlord that owns the unit.
    pub owner: usize,
    /// Where the unit stands.
    pub pos: Position,
    /// Index of the parcel the unit stands on.
    pub parcel: usize,
    /// Monthly rent, a whole-currency integer.
    pub rent: u64,
    /// Floor area, in whole units of area.
    pub area: u64,
    /// State of repair, in fixed point between `0` and `SCALE` (that is,
    /// between `0` and `1`).
    pub condition: u64,
    /// Month the current lease started.
    pub lease_month: usize,
    /// Consecutive months the unit has stood empty.
    pub months_vacant: usize,
    /// Identifiers of the tenants living here; unique, unordered.
    pub tenants: Vec<usize>,
    /// Most occupants the unit can hold.
    pub capacity: usize,
}

impl Unit {
    pub open spec fn wf(self) -> bool {
        &&& 1 <= self.capacity <= CAPACITY_MAX
        &&& self.tenants@.no_duplicates()
        &&& self.tenants@.len() <= self.capacity
        &&& 1 <= self.area <= AREA_MAX
        &&& self.rent <= RENT_MAX
        &&& self.condition <= SCALE
    }

    /// The unit still has room for another occupant.
    pub open spec fn has_free_slot(self) -> bool {
        self.tenants@.len() < self.capacity
    }

    /// How many occupant slots are still free.
    pub fn vacancies(&self) -> (n: usize)
        requires
            self.wf(),
        ensures
            n == self.capacity - self.tenants@.len(),
    {
        self.capacity - self.tenants.len()
    }

    /// Rent divided by floor area, in fixed point: the landlord's
    /// market-comparison metric.
    pub open spec fn rent_per_area_spec(self) -> int {
        (self.rent * SCALE) as int / self.area as int
    }

    pub fn rent_per_area(&self) -> (r: u64)
        requires
            self.wf(),
        ensures
            r == self.rent_per_area_spec(),
    {
        proof {
            assert(self.rent * SCALE <= RENT_MAX * SCALE) by (nonlinear_arith)
                requires self.rent <= RENT_MAX, SCALE >= 1;
            assert((self.rent * SCALE) as int / self.area as int <= (self.rent * SCALE) as int)
                by (nonlinear_arith)
                requires self.area >= 1, self.rent * SCALE >= 0;
        }
        (self.rent * SCALE) / self.area
    }

    /// Whether the tenant with identifier `t` lives here.
    pub fn houses(&self, t: usize) -> (b: bool)
        ensures
            b == self.tenants@.contains(t),
    {
        let mut i: usize = 0;
        while i < self.tenants.len()
            invariant
                i <= self.tenants@.len(),
                forall|j: int| 0 <= j < i ==> self.tenants@[j] != t,
            decreases self.tenants@.len() - i,
        {
            if self.tenants[i] == t {
                return true;
            }
            i += 1;
        }
        false
    }

    /// Take the tenant with identifier `t` off the occupant list.
    pub fn remove_tenant(&mut self, t: usize)
        requires
            old(self).wf(),
            old(self).tenants@.contains(t),
        ensures
            final(self).wf(),
            !final(self).tenants@.contains(t),
            forall|v: usize| v != t ==>
                (final(self).tenants@.contains(v) <==> old(self).tenants@.contains(v)),
            final(self).tenants@.len() == old(self).tenants@.len() - 1,
            *final(self) == (Unit { tenants: final(self).tenants, ..*old(self) }),
    {
        let ghost orig = self.tenants@;
        let mut i: usize = 0;
        while i < self.tenants.len() && self.tenants[i] != t
            invariant
                self.tenants@ == orig,
                i <= orig.len(),
                orig.contains(t),
                orig.no_duplicates(),
                forall|j: int| 0 <= j < i ==> orig[j] != t,
            decreases orig.len() - i,
        {
            i += 1;
        }
        proof {
            if i == orig.len() {
                let k = choose|k: int| 0 <= k < orig.len() && orig[k] == t;
                assert(false);
            }
            assert(orig[i as int] == t);
        }
        let ghost idx = i as int;
        self.tenants.remove(i);
        proof {
            let cur = self.tenants@;
            assert(cur =~= orig.subrange(0, idx) + orig.subrange(idx + 1, orig.len() as int));
            assert forall|j: int| 0 <= j < cur.len() implies
                cur[j] == (if j < idx { orig[j] } else { orig[j + 1] }) by {}
            assert forall|j: int| 0 <= j < cur.len() implies cur[j] != t by {
                if j >= idx {
                    assert(orig[j + 1] == cur[j]);
                }
            }
            assert(!cur.contains(t));
            assert forall|j1: int, j2: int| 0 <= j1 < j2 < cur.len() implies cur[j1] != cur[j2] by {
                let o1: int = if j1 < idx { j1 } else { j1 + 1 };
                let o2: int = if j2 < idx { j2 } else { j2 + 1 };
                assert(o1 != o2);
                assert(cur[j1] == orig[o1] && cur[j2] == orig[o2]);
            }
            assert(cur.no_duplicates());
            assert forall|v: usize| v != t && orig.contains(v) implies cur.contains(v) by {
                let k = choose|k: int| 0 <= k < orig.len() && orig[k] == v;
                if k < idx {
                    assert(cur[k] == v);
                } else {
                    assert(k != idx);
                    assert(cur[k - 1] == v);
                }
            }
            assert forall|v: usize| cur.contains(v) implies orig.contains(v) by {
                let k = choose|k: int| 0 <= k < cur.len() && cur[k] == v;
                if k < idx {
                    assert(orig[k] == v);
                } else {
                    assert(orig[k + 1] == v);
                }
            }
        }
    }

    /// Put the tenant with identifier `t` on the occupant list; the unit
    /// must still have a free slot.
    pub fn add_tenant(&mut self, t: usize)
        requires
            old(self).wf(),
            !old(self).tenants@.contains(t),
            old(self).has_free_slot(),
        ensures
            final(self).wf(),
            final(self).tenants@ == old(self).tenants@.push(t),
            final(self).tenants@.contains(t),
            forall|v: usize| v != t ==>
                (final(self).tenants@.contains(v) <==> old(self).tenants@.contains(v)),
            final(self).tenants@.len() == old(self).tenants@.len() + 1,
            *final(self) == (Unit { tenants: final(self).tenants, ..*old(self) }),
    {
        let ghost orig = self.tenants@;
        self.tenants.push(t);
        proof {
            let cur = self.tenants@;
            assert(cur[cur.len() - 1] == t);
            assert forall|v: usize| cur.contains(v) implies v == t || orig.contains(v) by {
                let k = choose|k: int| 0 <= k < cur.len() && cur[k] == v;
                if k < orig.len() {
                    assert(orig[k] == v);
                }
            }
            assert forall|j1: int, j2: int| 0 <= j1 < j2 < cur.len() implies cur[j1] != cur[j2] by {
                if j2 == cur.len() - 1 {
                    assert(orig[j1] == cur[j1]);
                    assert(orig.contains(cur[j1]));
                }
            }
            assert(cur.no_duplicates());
            assert forall|v: usize| orig.contains(v) implies cur.contains(v) by {
                let k = choose|k: int| 0 <= k < orig.len() && orig[k] == v;
                assert(cur[k] == v);
            }
        }
    }
}

/// The city storage the driver passes into each agent step: the unit
/// table, the parcel table, and a per-neighborhood index of unit
/// identifiers, all maintained by the surrounding simulation.
pub struct City {
    pub units: Vec<Unit>,
    pub parcels: Vec<Parcel>,
    /// For each neighborhood, the identifiers of all units in it.
    pub units_by_neighborhood: Vec<Vec<usize>>,
}

impl City {
    pub open spec fn wf(self) -> bool {
        &&& forall|i: int| 0 <= i < self.units@.len() ==> {
            &&& (#[trigger] self.units@[i]).wf()
            &&& self.units@[i].parcel < self.parcels@.len()
        }
        &&& forall|i: int| 0 <= i < self.parcels@.len() ==> {
            &&& (#[trigger] self.parcels@[i]).wf()
            &&& (self.parcels@[i].neighborhood matches Some(n)
                ==> n < self.units_by_neighborhood@.len())
        }
        &&& forall|n: int, j: int|
            0 <= n < self.units_by_neighborhood@.len()
                && 0 <= j < self.units_by_neighborhood@[n]@.len()
            ==> (#[trigger] self.units_by_neighborhood@[n]@[j]) < self.units@.len()
    }
}

/// The number of occupants across a run of units.
pub open spec fn occupancy_sum(units: Seq<Unit>) -> int
    decreases units.len(),
{
    if units.len() == 0 {
        0
    } else {
        occupancy_sum(units.drop_last()) + units.last().tenants@.len()
    }
}

impl City {
    /// How many tenants are housed across the whole city: the sum of
    /// every unit's occupant count.
    pub fn total_occupancy(&self) -> (n: u64)
        requires
            self.wf(),
            self.units@.len() <= 1_000_000_000,
        ensures
            n == occupancy_sum(self.units@),
    {
        let mut acc: u64 = 0;
        let mut i: usize = 0;
        while i < self.units.len()
            invariant
                self.wf(),
                self.units@.len() <= 1_000_000_000,
                i <= self.units@.len(),
                acc == occupancy_sum(self.units@.take(i as int)),
                acc <= i * 1_000_000,
            decreases self.units@.len() - i,
        {
            proof {
                assert(self.units@.take(i as int + 1).drop_last()
                    =~= self.units@.take(i as int));
                assert(self.units@.take(i as int + 1).last() == self.units@[i as int]);
                assert((i + 1) * 1_000_000 == i * 1_000_000 + 1_000_000) by (nonlinear_arith);
                assert(self.units@[i as int].wf());
            }
            let len = self.units[i].tenants.len();
            acc = acc + (len as u64);
            i += 1;
        }
        proof {
            assert(self.units@.take(self.units@.len() as int) =~= self.units@);
        }
        acc
    }
}

/// The set of unit identifiers with at least one free occupant slot.  All
/// mutation goes through `insert` and `remove`, so membership can be kept
/// in lockstep with occupancy by every agent that moves a tenant.
pub struct VacancyPool {
    /// The pooled identifiers; mutated only through `insert` and `remove`.
    pub ids: Vec<usize>,
}

impl VacancyPool {
    /// Membership: the pool is read as a set.
    pub open spec fn has(self, u: usize) -> bool {
        self.ids@.contains(u)
    }

    pub open spec fn wf(self) -> bool {
        self.ids@.no_duplicates()
    }

    pub open spec fn len_spec(self) -> nat {
        self.ids@.len()
    }

    pub fn new() -> (p: VacancyPool)
        ensures
            p.wf(),
            forall|u: usize| !p.has(u),
            p.len_spec() == 0,
    {
        VacancyPool { ids: Vec::new() }
    }

    pub fn len(&self) -> (n: usize)
        ensures
            n == self.len_spec(),
    {
        self.ids.len()
    }

    /// A read-only look at the pooled identifiers, for sampling.
    pub fn as_ids(&self) -> (v: &Vec<usize>)
        ensures
            v@.len() == self.len_spec(),
            forall|j: int| 0 <= j < v@.len() ==> self.has(#[trigger] v@[j]),
    {
        &self.ids
    }

    pub fn contains(&self, u: usize) -> (b: bool)
        ensures
            b == self.has(u),
    {
        let mut i: usize = 0;
        while i < self.ids.len()
            invariant
                i <= self.ids@.len(),
                forall|j: int| 0 <= j < i ==> self.ids@[j] != u,
            decreases self.ids@.len() - i,
        {
            if self.ids[i] == u {
                return true;
            }
            i += 1;
        }
        false
    }

    /// Put `u` into the pool; a no-op when it is already there.
    pub fn insert(&mut self, u: usize)
        requires
            old(self).wf(),
        ensures
            final(self).wf(),
            final(self).has(u),
            forall|v: usize| v != u ==> (final(self).has(v) <==> old(self).has(v)),
    {
        if !self.contains(u) {
            let ghost orig = self.ids@;
            self.ids.push(u);
            proof {
                let cur = self.ids@;
                assert(cur[cur.len() - 1] == u);
                assert forall|v: usize| cur.contains(v) implies v == u || orig.contains(v) by {
                    let k = choose|k: int| 0 <= k < cur.len() && cur[k] == v;
                    if k < orig.len() {
                        assert(orig[k] == v);
                    }
                }
                assert forall|j1: int, j2: int| 0 <= j1 < j2 < cur.len()
                    implies cur[j1] != cur[j2] by {
                    if j2 == cur.len() - 1 {
                        assert(orig[j1] == cur[j1]);
                        assert(orig.contains(cur[j1]));
                    }
                }
                assert(cur.no_duplicates());
                assert forall|v: usize| orig.contains(v) implies cur.contains(v) by {
                    let k = choose|k: int| 0 <= k < orig.len() && orig[k] == v;
                    assert(cur[k] == v);
                }
            }
        }
    }

    /// Take `u` out of the pool; a no-op when it is not there.
    pub fn remove(&mut self, u: usize)
        requires
            old(self).wf(),
        ensures
            final(self).wf(),
            !final(self).has(u),
            forall|v: usize| v != u ==> (final(self).has(v) <==> old(self).has(v)),
    {
        let ghost orig = self.ids@;
        let mut i: usize = 0;
        while i < self.ids.len() && self.ids[i] != u
            invariant
                self.ids@ == orig,
                i <= orig.len(),
                orig.no_duplicates(),
                forall|j: int| 0 <= j < i ==> orig[j] != u,
            decreases orig.len() - i,
        {
            i += 1;
        }
        if i < self.ids.len() {
            let ghost idx = i as int;
            self.ids.remove(i);
            proof {
                    let cur = self.ids@;
                    assert(orig[idx] == u);
                    assert(cur =~= orig.subrange(0, idx)
                        + orig.subrange(idx + 1, orig.len() as int));
                    assert forall|j: int| 0 <= j < cur.len() implies
                        cur[j] == (if j < idx { orig[j] } else { orig[j + 1] }) by {}
                    assert forall|j: int| 0 <= j < cur.len() implies cur[j] != u by {
                        if j >= idx {
                            assert(cur[j] == orig[j + 1]);
                            assert(j + 1 != idx);
                        }
                    }
                    assert(!cur.contains(u));
                    assert forall|j1: int, j2: int| 0 <= j1 < j2 < cur.len()
                        implies cur[j1] != cur[j2] by {
                        let o1: int = if j1 < idx { j1 } else { j1 + 1 };
                        let o2: int = if j2 < idx { j2 } else { j2 + 1 };
                        assert(o1 != o2);
                        assert(cur[j1] == orig[o1] && cur[j2] == orig[o2]);
                    }
                    assert(cur.no_duplicates());
                    assert forall|v: usize| v != u && orig.contains(v) implies cur.contains(v) by {
                        let k = choose|k: int| 0 <= k < orig.len() && orig[k] == v;
                        if k < idx {
                            assert(cur[k] == v);
                        } else {
                            assert(k != idx);
                            assert(cur[k - 1] == v);
                        }
                    }
                    assert forall|v: usize| cur.contains(v) implies orig.contains(v) by {
                        let k = choose|k: int| 0 <= k < cur.len() && cur[k] == v;
                        if k < idx {
                            assert(orig[k] == v);
                        } else {
                            assert(orig[k + 1] == v);
                        }
                    }
                    assert forall|v: usize| v != u implies
                        (self.ids@.contains(v) <==> orig.contains(v)) by {
                        if orig.contains(v) {
                            assert(cur.contains(v));
                        }
                    }
            }
        }
    }
}

/// The pool invariant the whole core maintains: every pooled identifier
/// names a unit, and a unit's identifier is pooled exactly when the unit
/// still has a free occupant slot.
pub open spec fn pool_consistent(city: City, pool: VacancyPool) -> bool {
    &&& forall|u: usize| #[trigger] pool.has(u) ==> u < city.units@.len()
    &&& forall|u: usize| u < city.units@.len()
        ==> (#[trigger] pool.has(u) <==> city.units@[u as int].has_free_slot())
}

} // verus!
