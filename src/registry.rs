use vstd::prelude::*;

use crate::work_unit::{lease_expired, UnitState, UnitView, WorkPackage};

verus! {

/// What `acquire` hands out.
#[derive(Clone, Copy, Debug, PartialEq, Eq, Structural)]
pub enum LeaseOutcome {
    /// The half-open range `[range_start, range_end)` is leased to the caller.
    Leased { range_start: u128, range_end: u128 },
    /// Nothing is available now, but some unit is not yet completed.
    Busy,
    /// Every unit is completed.
    Exhausted,
}

/// A completion named a range start that is not the key of any unit.
#[derive(Clone, Copy, Debug, PartialEq, Eq, Structural)]
pub struct UnknownLeaseKey {
    pub range_start: u128,
}

/// The lease state of a unit, as a caller can read it.
#[derive(Clone, Copy, Debug, PartialEq, Eq, Structural)]
pub enum UnitStatus {
    Available,
    Assigned,
    Completed,
}

pub open spec fn is_expired(u: UnitView, now: u64, timeout: u64) -> bool {
    u.state matches UnitState::Assigned { at, .. } && lease_expired(at, now, timeout)
}

/// One unit after the reclaim sweep: an expired lease goes back to the pool
/// with one more timeout counted.
pub open spec fn reclaim_one(u: UnitView, now: u64, timeout: u64) -> UnitView {
    if is_expired(u, now, timeout) {
        UnitView { state: UnitState::Available, timeout_count: u.timeout_count + 1 }
    } else {
        u
    }
}

pub open spec fn reclaimed(s: Seq<UnitView>, now: u64, timeout: u64) -> Seq<UnitView> {
    Seq::new(s.len(), |i: int| reclaim_one(s[i], now, timeout))
}

/// How many units of `s` hold an expired lease.
pub open spec fn expired_count(s: Seq<UnitView>, now: u64, timeout: u64) -> nat
    decreases s.len(),
{
    if s.len() == 0 {
        0
    } else {
        expired_count(s.drop_last(), now, timeout) + if is_expired(s.last(), now, timeout) {
            1nat
        } else {
            0nat
        }
    }
}

/// Every unit that a sweep might reclaim can still count one more timeout.
pub open spec fn timeouts_countable(s: Seq<UnitView>) -> bool {
    forall|i: int| 0 <= i < s.len() && s[i].state is Assigned ==> s[i].timeout_count < u64::MAX
}

/// Unit `i` is the available unit that minimises `(timeout_count, index)`.
pub open spec fn is_selected(s: Seq<UnitView>, i: int) -> bool {
    &&& 0 <= i < s.len()
    &&& s[i].state is Available
    &&& forall|j: int|
        0 <= j < s.len() && s[j].state is Available ==> s[i].timeout_count < s[j].timeout_count
            || (s[i].timeout_count == s[j].timeout_count && i <= j)
}

pub open spec fn assigned(u: UnitView, now: u64, worker: Seq<char>) -> UnitView {
    UnitView { state: UnitState::Assigned { at: now, to: worker }, timeout_count: u.timeout_count }
}

pub open spec fn completed(u: UnitView) -> UnitView {
    UnitView { state: UnitState::Completed, timeout_count: u.timeout_count }
}

/// `acquire` turned the swept units `s` into `s2`, answering `r`.
pub open spec fn acquire_post(
    s: Seq<UnitView>,
    step: nat,
    now: u64,
    worker: Seq<char>,
    r: LeaseOutcome,
    s2: Seq<UnitView>,
) -> bool {
    match r {
        LeaseOutcome::Leased { range_start, range_end } => {
            let i = range_start as int / (step as int);
            &&& range_start == i * step
            &&& range_end == range_start + step
            &&& is_selected(s, i)
            &&& s2 == s.update(i, assigned(s[i], now, worker))
        },
        LeaseOutcome::Busy => {
            &&& s2 == s
            &&& forall|i: int| 0 <= i < s.len() ==> !(s[i].state is Available)
            &&& exists|i: int| 0 <= i < s.len() && !(s[i].state is Completed)
        },
        LeaseOutcome::Exhausted => {
            &&& s2 == s
            &&& forall|i: int| 0 <= i < s.len() ==> s[i].state is Completed
        },
    }
}

/// `k` is the range start of one of `len` units of width `step`.
pub open spec fn has_key(len: nat, step: nat, k: int) -> bool {
    step > 0 && k % (step as int) == 0 && 0 <= k / (step as int) < len
}

/// The units after completing the unit keyed `k`, if there is one.
pub open spec fn complete_result(s: Seq<UnitView>, step: nat, k: int) -> Seq<UnitView> {
    if has_key(s.len(), step, k) {
        let i = k / (step as int);
        s.update(i, completed(s[i]))
    } else {
        s
    }
}

/// Unit `i` of width `step` covers the point `x`.
pub open spec fn unit_covers(step: nat, i: int, x: int) -> bool {
    i * step <= x < (i + 1) * step
}

/// All work units, keyed by range start: unit `i` covers
/// `[i * step, (i + 1) * step)`.
pub struct WorkUnitRegistry {
    units: Vec<WorkPackage>,
    step: u128,
}

impl WorkUnitRegistry {
    pub closed spec fn wf(&self) -> bool {
        &&& self.step > 0
        &&& self.units@.len() * self.step <= u128::MAX
        &&& forall|i: int| 0 <= i < self.units@.len() ==> self.units@[i].wf()
    }

    pub closed spec fn view(&self) -> Seq<UnitView> {
        Seq::new(self.units@.len(), |i: int| self.units@[i]@)
    }

    pub closed spec fn spec_step(&self) -> nat {
        self.step as nat
    }

    /// Creates `count` available units at range starts `0, step, 2 * step, ...`.
    pub fn new(count: usize, step: u128) -> (r: Self)
        requires
            step > 0,
            count * step <= u128::MAX,
        ensures
            r.wf(),
            r.spec_step() == step,
            r@.len() == count,
            forall|i: int|
                0 <= i < count ==> r@[i] == (UnitView {
                    state: UnitState::Available,
                    timeout_count: 0,
                }),
    {
        let mut units: Vec<WorkPackage> = Vec::new();
        let mut i: usize = 0;
        while i < count
            invariant
                i <= count,
                units@.len() == i,
                forall|k: int|
                    0 <= k < i ==> units@[k].wf() && units@[k]@ == (UnitView {
                        state: UnitState::Available,
                        timeout_count: 0,
                    }),
            decreases count - i,
        {
            units.push(WorkPackage::new());
            i = i + 1;
        }
        WorkUnitRegistry { units, step }
    }

    /// Returns every expired lease to the pool, counting one more timeout on
    /// each; answers how many were reclaimed.
    pub fn reclaim_expired(&mut self, now: u64, lease_timeout: u64) -> (r: usize)
        requires
            old(self).wf(),
            timeouts_countable(old(self)@),
        ensures
            final(self).wf(),
            final(self).spec_step() == old(self).spec_step(),
            final(self)@ == reclaimed(old(self)@, now, lease_timeout),
            r == expired_count(old(self)@, now, lease_timeout),
    {
        let ghost s = self@;
        let n = self.units.len();
        let mut count: usize = 0;
        let mut i: usize = 0;
        while i < n
            invariant
                n == self.units@.len(),
                n == s.len(),
                i <= n,
                count <= i,
                self.step == old(self).step,
                self.wf(),
                timeouts_countable(s),
                count == expired_count(s.take(i as int), now, lease_timeout),
                forall|k: int| 0 <= k < i ==> self.units@[k]@ == reclaim_one(s[k], now, lease_timeout),
                forall|k: int| i <= k < n ==> self.units@[k]@ == s[k],
            decreases n - i,
        {
            assert(s.take(i + 1).drop_last() =~= s.take(i as int));
            if self.units[i].is_timed_out(now, lease_timeout) {
                assert(s[i as int].state is Assigned);
                assert(s[i as int].timeout_count < u64::MAX);
                self.units[i].reset_for_timeout();
                count = count + 1;
            }
            i = i + 1;
        }
        assert(s.take(n as int) =~= s);
        assert(self@ =~= reclaimed(s, now, lease_timeout));
        count
    }

    /// Sweeps expired leases, then leases the available unit with the fewest
    /// timeouts (the earliest range among ties) to `worker` at time `now`.
    pub fn acquire(&mut self, worker: String, now: u64, lease_timeout: u64) -> (r: LeaseOutcome)
        requires
            old(self).wf(),
            timeouts_countable(old(self)@),
        ensures
            final(self).wf(),
            final(self).spec_step() == old(self).spec_step(),
            acquire_post(
                reclaimed(old(self)@, now, lease_timeout),
                old(self).spec_step(),
                now,
                worker@,
                r,
                final(self)@,
            ),
    {
        self.reclaim_expired(now, lease_timeout);
        let ghost s = self@;
        let n = self.units.len();
        let mut best: Option<usize> = None;
        let mut open = false;
        let mut i: usize = 0;
        while i < n
            invariant
                n == self.units@.len(),
                n == s.len(),
                i <= n,
                self.wf(),
                s == self@,
                open == exists|k: int| 0 <= k < i && !(s[k].state is Completed),
                match best {
                    None => forall|k: int| 0 <= k < i ==> !(s[k].state is Available),
                    Some(b) => {
                        &&& b < i
                        &&& s[b as int].state is Available
                        &&& forall|k: int|
                            0 <= k < i && s[k].state is Available ==> s[b as int].timeout_count
                                < s[k].timeout_count || (s[b as int].timeout_count
                                == s[k].timeout_count && b <= k)
                    },
                },
            decreases n - i,
        {
            let u = &self.units[i];
            if !u.is_completed() {
                open = true;
                assert(0 <= i < i + 1 && !(s[i as int].state is Completed));
            }
            if !u.is_completed() && !u.is_assigned() {
                match best {
                    None => {
                        best = Some(i);
                    },
                    Some(b) => {
                        if u.timeout_count() < self.units[b].timeout_count() {
                            best = Some(i);
                        }
                    },
                }
            }
            i = i + 1;
        }
        match best {
            Some(b) => {
                self.units[b].assign(now, worker);
                proof {
                    let bi = b as int;
                    let st = self.step as int;
                    assert(bi + 1 <= n);
                    assert((bi + 1) * st <= n * st) by (nonlinear_arith)
                        requires bi + 1 <= n, st > 0;
                    assert(bi * st + st == (bi + 1) * st) by (nonlinear_arith);
                    assert((bi * st) / st == bi && (bi * st) % st == 0) by (nonlinear_arith)
                        requires st > 0, bi >= 0;
                }
                let start = b as u128 * self.step;
                let end = start + self.step;
                assert(self@ =~= s.update(b as int, assigned(s[b as int], now, worker@)));
                LeaseOutcome::Leased { range_start: start, range_end: end }
            },
            None => {
                if open {
                    LeaseOutcome::Busy
                } else {
                    LeaseOutcome::Exhausted
                }
            },
        }
    }

    /// Retires the unit keyed `range_start`; `success` tells whether its scan
    /// found a match, and either way the unit is done. A unit already
    /// completed stays so. An unknown key changes
    /// nothing and is reported.
    pub fn complete(&mut self, range_start: u128, success: bool) -> (r: Result<(), UnknownLeaseKey>)
        requires
            old(self).wf(),
        ensures
            final(self).wf(),
            final(self).spec_step() == old(self).spec_step(),
            final(self)@ == complete_result(old(self)@, old(self).spec_step(), range_start as int),
            r is Ok <==> has_key(old(self)@.len(), old(self).spec_step(), range_start as int),
            r is Err ==> r == Err::<(), UnknownLeaseKey>(UnknownLeaseKey { range_start }),
    {
        let i = range_start / self.step;
        if range_start % self.step == 0 && i < self.units.len() as u128 {
            let ghost s = self@;
            self.units[i as usize].mark_completed();
            assert(self@ =~= s.update(i as int, completed(s[i as int])));
            Ok(())
        } else {
            Err(UnknownLeaseKey { range_start })
        }
    }

    /// The lease state of the unit keyed `range_start`, if there is one.
    pub fn status(&self, range_start: u128) -> (r: Option<UnitStatus>)
        requires
            self.wf(),
        ensures
            r is Some <==> has_key(self@.len(), self.spec_step(), range_start as int),
            r matches Some(st) ==> {
                let u = self@[range_start as int / (self.spec_step() as int)];
                &&& (st == UnitStatus::Available) == (u.state is Available)
                &&& (st == UnitStatus::Assigned) == (u.state is Assigned)
                &&& (st == UnitStatus::Completed) == (u.state is Completed)
            },
    {
        let i = range_start / self.step;
        if range_start % self.step == 0 && i < self.units.len() as u128 {
            let u = &self.units[i as usize];
            if u.is_completed() {
                Some(UnitStatus::Completed)
            } else if u.is_assigned() {
                Some(UnitStatus::Assigned)
            } else {
                Some(UnitStatus::Available)
            }
        } else {
            None
        }
    }

    /// How many leases of the unit keyed `range_start` have expired, if
    /// there is such a unit.
    pub fn timeout_count(&self, range_start: u128) -> (r: Option<u64>)
        requires
            self.wf(),
        ensures
            r is Some <==> has_key(self@.len(), self.spec_step(), range_start as int),
            r matches Some(c) ==> c == self@[range_start as int / (self.spec_step() as int)].timeout_count,
    {
        let i = range_start / self.step;
        if range_start % self.step == 0 && i < self.units.len() as u128 {
            Some(self.units[i as usize].timeout_count())
        } else {
            None
        }
    }

    /// Whether every leased unit can still count one more timeout, as
    /// `acquire` and `reclaim_expired` need.
    pub fn timeouts_countable(&self) -> (r: bool)
        requires
            self.wf(),
        ensures
            r == timeouts_countable(self@),
    {
        let mut i: usize = 0;
        while i < self.units.len()
            invariant
                i <= self.units@.len(),
                self.wf(),
                forall|k: int|
                    0 <= k < i && self@[k].state is Assigned ==> self@[k].timeout_count < u64::MAX,
            decreases self.units@.len() - i,
        {
            if self.units[i].is_assigned() && self.units[i].timeout_count() == u64::MAX {
                assert(self@[i as int].state is Assigned && self@[i as int].timeout_count == u64::MAX);
                return false;
            }
            i = i + 1;
        }
        true
    }

    /// The number of units.
    pub fn len(&self) -> (r: usize)
        ensures
            r == self@.len(),
    {
        self.units.len()
    }

    /// The width of every unit's range.
    pub fn step(&self) -> (r: u128)
        requires
            self.wf(),
        ensures
            r == self.spec_step(),
            r > 0,
    {
        self.step
    }
}

/// The units of a registry tile `[0, len * step)`: each point of it lies in
/// the range of exactly one unit, and no unit reaches outside it.
pub proof fn lemma_units_tile(reg: &WorkUnitRegistry, x: int)
    requires
        reg.wf(),
    ensures
        0 <= x < reg@.len() * reg.spec_step() ==> exists|i: int|
            0 <= i < reg@.len() && #[trigger] unit_covers(reg.spec_step(), i, x),
        forall|i: int, j: int|
            unit_covers(reg.spec_step(), i, x) && unit_covers(reg.spec_step(), j, x) ==> i == j,
        forall|i: int|
            0 <= i < reg@.len() && #[trigger] unit_covers(reg.spec_step(), i, x) ==> 0 <= x < reg@.len()
                * reg.spec_step(),
{
    let st = reg.spec_step() as int;
    let n = reg@.len() as int;
    assert(st > 0);
    if 0 <= x < n * st {
        let i = x / st;
        assert(0 <= i < n && i * st <= x < (i + 1) * st) by (nonlinear_arith)
            requires st > 0, 0 <= x < n * st, i == x / st;
        assert(unit_covers(reg.spec_step(), i, x));
    }
    assert forall|i: int, j: int|
        unit_covers(reg.spec_step(), i, x) && unit_covers(reg.spec_step(), j, x) implies i == j by {
        assert(i == j) by (nonlinear_arith)
            requires st > 0, i * st <= x < (i + 1) * st, j * st <= x < (j + 1) * st;
    }
    assert forall|i: int|
        0 <= i < n && #[trigger] unit_covers(reg.spec_step(), i, x) implies 0 <= x < n * st by {
        assert(0 <= x < n * st) by (nonlinear_arith)
            requires st > 0, 0 <= i < n, i * st <= x < (i + 1) * st;
    }
}

/// While a unit's lease is live (assigned and not expired), `acquire` does
/// not lease that unit's range again.
pub proof fn lemma_live_lease_not_reissued(
    s: Seq<UnitView>,
    step: nat,
    i: int,
    now: u64,
    lease_timeout: u64,
    worker: Seq<char>,
    r: LeaseOutcome,
    s2: Seq<UnitView>,
)
    requires
        step > 0,
        0 <= i < s.len(),
        s[i].state is Assigned,
        !is_expired(s[i], now, lease_timeout),
        acquire_post(reclaimed(s, now, lease_timeout), step, now, worker, r, s2),
    ensures
        !(r matches LeaseOutcome::Leased { range_start, .. } && range_start == i * step),
{
    if let LeaseOutcome::Leased { range_start, .. } = r {
        if range_start == i * step {
            let st = step as int;
            assert((i * st) / st == i) by (nonlinear_arith)
                requires st > 0;
            assert(reclaimed(s, now, lease_timeout)[i] == s[i]);
        }
    }
}

/// A sweep makes an expired unit available again with exactly one more
/// timeout counted.
pub proof fn lemma_reclaim_frees_expired(s: Seq<UnitView>, i: int, now: u64, lease_timeout: u64)
    requires
        0 <= i < s.len(),
        is_expired(s[i], now, lease_timeout),
    ensures
        reclaimed(s, now, lease_timeout)[i].state is Available,
        reclaimed(s, now, lease_timeout)[i].timeout_count == s[i].timeout_count + 1,
{
}

/// Completing a unit twice is the same as completing it once, and the second
/// completion still finds the key.
pub proof fn lemma_complete_idempotent(s: Seq<UnitView>, step: nat, k: int)
    requires
        has_key(s.len(), step, k),
    ensures
        has_key(complete_result(s, step, k).len(), step, k),
        complete_result(s, step, k)[k / (step as int)].state is Completed,
        complete_result(complete_result(s, step, k), step, k) == complete_result(s, step, k),
{
    let i = k / (step as int);
    assert(complete_result(complete_result(s, step, k), step, k) =~= complete_result(s, step, k));
}

/// `acquire` prefers an available unit with fewer timeouts: while unit `i`
/// is available with fewer timeouts than unit `j`, `j` is not leased, in
/// whichever order the two stand.
pub proof fn lemma_fewer_timeouts_first(
    s: Seq<UnitView>,
    step: nat,
    i: int,
    j: int,
    now: u64,
    lease_timeout: u64,
    worker: Seq<char>,
    r: LeaseOutcome,
    s2: Seq<UnitView>,
)
    requires
        step > 0,
        0 <= i < s.len(),
        0 <= j < s.len(),
        s[i].state is Available,
        s[j].state is Available,
        s[i].timeout_count < s[j].timeout_count,
        acquire_post(reclaimed(s, now, lease_timeout), step, now, worker, r, s2),
    ensures
        r matches LeaseOutcome::Leased { range_start, .. } && range_start != j * step,
{
    let t = reclaimed(s, now, lease_timeout);
    assert(t[i] == s[i] && t[j] == s[j]);
    match r {
        LeaseOutcome::Leased { range_start, .. } => {
            if range_start == j * step {
                let st = step as int;
                assert((j * st) / st == j) by (nonlinear_arith)
                    requires st > 0;
                assert(is_selected(t, j));
            }
        },
        LeaseOutcome::Busy => {
            assert(!(t[i].state is Available));
        },
        LeaseOutcome::Exhausted => {
            assert(t[i].state is Completed);
        },
    }
}

/// `Completed` is terminal: neither a sweep, nor `acquire`, nor `complete`
/// takes a unit out of it.
pub proof fn lemma_completed_is_terminal(
    s: Seq<UnitView>,
    step: nat,
    i: int,
    k: int,
    now: u64,
    lease_timeout: u64,
    worker: Seq<char>,
    r: LeaseOutcome,
    s2: Seq<UnitView>,
)
    requires
        step > 0,
        0 <= i < s.len(),
        s[i].state is Completed,
    ensures
        reclaimed(s, now, lease_timeout)[i].state is Completed,
        complete_result(s, step, k)[i].state is Completed,
        acquire_post(reclaimed(s, now, lease_timeout), step, now, worker, r, s2) ==> s2[i].state is Completed,
{
    let t = reclaimed(s, now, lease_timeout);
    assert(t[i] == s[i]);
    if acquire_post(t, step, now, worker, r, s2) {
        if let LeaseOutcome::Leased { range_start, .. } = r {
            let j = range_start as int / (step as int);
            assert(t[j].state is Available);
            assert(j != i);
        }
    }
}

} // verus!
