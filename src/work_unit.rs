use vstd::prelude::*;

verus! {

/// The lease state of a work unit, as the contracts see it.
pub enum UnitState {
    Available,
    Assigned { at: u64, to: Seq<char> },
    Completed,
}

/// The abstract value of a work unit: its lease state and how many of its
/// leases have expired.
pub struct UnitView {
    pub state: UnitState,
    pub timeout_count: nat,
}

/// True when a lease stamped at `at` is older than `timeout` at time `now`.
/// A clock that reads earlier than the stamp counts as expired.
pub open spec fn lease_expired(at: u64, now: u64, timeout: u64) -> bool {
    now < at || now - at > timeout
}

/// A single leasable range's lease bookkeeping.
pub struct WorkPackage {
    completed: bool,
    assigned_time: Option<u64>,
    assigned_to: Option<String>,
    timeout_count: u64,
}

impl WorkPackage {
    /// The fields agree on exactly one lease state.
    pub closed spec fn wf(&self) -> bool {
        &&& self.assigned_time.is_some() == self.assigned_to.is_some()
        &&& self.completed ==> self.assigned_time.is_none()
    }

    pub closed spec fn view(&self) -> UnitView {
        UnitView {
            state: if self.completed {
                UnitState::Completed
            } else if self.assigned_time.is_some() {
                UnitState::Assigned {
                    at: self.assigned_time.unwrap(),
                    to: self.assigned_to.unwrap()@,
                }
            } else {
                UnitState::Available
            },
            timeout_count: self.timeout_count as nat,
        }
    }

    /// A fresh, available unit that has never timed out.
    pub fn new() -> (r: Self)
        ensures
            r.wf(),
            r@ == (UnitView { state: UnitState::Available, timeout_count: 0 }),
    {
        WorkPackage { completed: false, assigned_time: None, assigned_to: None, timeout_count: 0 }
    }

    /// Whether this unit holds a lease that has expired at `now`.
    pub fn is_timed_out(&self, now: u64, lease_timeout: u64) -> (r: bool)
        requires
            self.wf(),
        ensures
            r == (self@.state matches UnitState::Assigned { at, .. } && lease_expired(at, now, lease_timeout)),
    {
        match self.assigned_time {
            Some(time) => {
                if self.completed {
                    false
                } else {
                    now < time || now - time > lease_timeout
                }
            },
            None => false,
        }
    }

    /// Returns an assigned unit to the pool, counting one more timeout.
    pub fn reset_for_timeout(&mut self)
        requires
            old(self).wf(),
            old(self)@.state is Assigned,
            old(self)@.timeout_count < u64::MAX,
        ensures
            final(self).wf(),
            final(self)@ == (UnitView {
                state: UnitState::Available,
                timeout_count: old(self)@.timeout_count + 1,
            }),
    {
        self.assigned_time = None;
        self.assigned_to = None;
        self.timeout_count = self.timeout_count + 1;
    }

    /// Retires the unit; a completed unit stays completed.
    pub fn mark_completed(&mut self)
        requires
            old(self).wf(),
        ensures
            final(self).wf(),
            final(self)@ == (UnitView {
                state: UnitState::Completed,
                timeout_count: old(self)@.timeout_count,
            }),
    {
        self.completed = true;
        self.assigned_time = None;
        self.assigned_to = None;
    }

    /// Whether the unit is retired.
    pub fn is_completed(&self) -> (r: bool)
        requires
            self.wf(),
        ensures
            r == (self@.state is Completed),
    {
        self.completed
    }

    /// Whether the unit is leased out.
    pub fn is_assigned(&self) -> (r: bool)
        requires
            self.wf(),
        ensures
            r == (self@.state is Assigned),
    {
        !self.completed && self.assigned_time.is_some()
    }

    /// How many of this unit's leases have expired.
    pub fn timeout_count(&self) -> (r: u64)
        ensures
            r == self@.timeout_count,
    {
        self.timeout_count
    }

    /// Leases an available unit to `worker` at time `now`.
    pub fn assign(&mut self, now: u64, worker: String)
        requires
            old(self).wf(),
            old(self)@.state is Available,
        ensures
            final(self).wf(),
            final(self)@ == (UnitView {
                state: UnitState::Assigned { at: now, to: worker@ },
                timeout_count: old(self)@.timeout_count,
            }),
    {
        self.assigned_time = Some(now);
        self.assigned_to = Some(worker);
    }
}

} // verus!
