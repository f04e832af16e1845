//! Tracking of outstanding tasks, for the server's accept loop and for the
//! cooperative runtime.
//!
//! Both spawn work as independent tasks and must, at shutdown, wait for every
//! task they spawned instead of abandoning it. The tracker decides what the
//! loop waits for next, hands out a ticket for each spawned task, refuses new
//! work once draining has begun or while the cap of outstanding tasks is
//! reached, and records each task that is reaped.

use vstd::prelude::*;
use crate::pool::{ConfigError, SubmitError, lemma_unique_range_len};

verus! {

/// The phase of the loop.
#[derive(Clone, Copy, Debug, PartialEq, Eq, Structural)]
pub enum Phase {
    /// New work is accepted.
    Accepting,
    /// Shutdown was requested: no new work, outstanding tasks are awaited.
    Draining,
    /// Every task has been reaped after shutdown.
    Stopped,
}

/// What the loop waits for next.
#[derive(Clone, Copy, Debug, PartialEq, Eq, Structural)]
pub enum Wait {
    /// Whichever comes first: a new connection or the shutdown signal.
    ConnectionOrShutdown,
    /// The completion of an outstanding task.
    TaskCompletion,
    /// Nothing: the loop is over.
    Done,
}

/// Outstanding tasks of a loop, with a cap on how many there may be.
pub struct TaskTracker {
    phase: Phase,
    cap: usize,
    in_flight: usize,
    next_ticket: u64,
    outstanding: Ghost<Set<nat>>,
    reaped: Ghost<Seq<nat>>,
}

impl TaskTracker {
    pub closed spec fn phase(&self) -> Phase {
        self.phase
    }

    /// The most tasks that may be outstanding at once.
    pub closed spec fn cap(&self) -> nat {
        self.cap as nat
    }

    /// Number of tasks spawned so far; tickets are `0..spawned()`.
    pub closed spec fn spawned(&self) -> nat {
        self.next_ticket as nat
    }

    /// Tickets of the tasks spawned and not yet reaped.
    pub closed spec fn outstanding(&self) -> Set<nat> {
        self.outstanding@
    }

    /// Tickets of the reaped tasks, in the order they were reaped.
    pub closed spec fn reaped(&self) -> Seq<nat> {
        self.reaped@
    }

    /// Number of outstanding tasks.
    pub closed spec fn count(&self) -> nat {
        self.in_flight as nat
    }

    /// The tracker's invariant.
    pub open spec fn wf(&self) -> bool {
        &&& self.cap() >= 1
        &&& self.outstanding().finite()
        &&& self.count() == self.outstanding().len()
        &&& self.count() <= self.cap()
        &&& forall|t: nat| #[trigger] self.outstanding().contains(t) ==> t < self.spawned()
        &&& forall|k: int| 0 <= k < self.reaped().len() ==> #[trigger] self.reaped()[k] < self.spawned()
        &&& self.reaped().no_duplicates()
        &&& forall|t: nat|
            t < self.spawned() ==> (#[trigger] self.reaped().contains(t) <==> !self.outstanding().contains(t))
        &&& self.phase() == Phase::Stopped ==> self.count() == 0
        &&& self.phase() == Phase::Draining ==> self.count() > 0
    }

    /// What the loop waits for in the current state.
    pub open spec fn spec_next_wait(&self) -> Wait {
        match self.phase() {
            Phase::Accepting => if self.count() < self.cap() {
                Wait::ConnectionOrShutdown
            } else {
                Wait::TaskCompletion
            },
            Phase::Draining => Wait::TaskCompletion,
            Phase::Stopped => Wait::Done,
        }
    }

    /// A tracker in the accepting phase with no task, that allows `cap`
    /// outstanding tasks.
    pub fn new(cap: usize) -> (r: Result<Self, ConfigError>)
        ensures
            match r {
                Ok(t) => {
                    &&& cap > 0
                    &&& t.wf()
                    &&& t.cap() == cap
                    &&& t.phase() == Phase::Accepting
                    &&& t.spawned() == 0
                    &&& t.count() == 0
                    &&& t.reaped().len() == 0
                },
                Err(e) => cap == 0 && e == ConfigError::ZeroWorkers,
            },
    {
        if cap == 0 {
            return Err(ConfigError::ZeroWorkers);
        }
        Ok(
            TaskTracker {
                phase: Phase::Accepting,
                cap,
                in_flight: 0,
                next_ticket: 0,
                outstanding: Ghost(Set::empty()),
                reaped: Ghost(Seq::empty()),
            },
        )
    }

    /// The current phase.
    pub fn current_phase(&self) -> (r: Phase)
        ensures
            r == self.phase(),
    {
        self.phase
    }

    /// Number of outstanding tasks.
    pub fn in_flight(&self) -> (r: usize)
        ensures
            r == self.count(),
    {
        self.in_flight
    }

    /// Number of tasks spawned so far.
    pub fn spawned_count(&self) -> (r: u64)
        ensures
            r == self.spawned(),
    {
        self.next_ticket
    }

    /// Whether every task has been reaped after shutdown.
    pub fn is_stopped(&self) -> (r: bool)
        ensures
            r == (self.phase() == Phase::Stopped),
    {
        match self.phase {
            Phase::Stopped => true,
            _ => false,
        }
    }

    /// What the loop waits for next: while accepting and below the cap, a
    /// new connection or the shutdown signal; while at the cap or draining,
    /// the completion of a task; once stopped, nothing.
    pub fn next_wait(&self) -> (r: Wait)
        ensures
            r == self.spec_next_wait(),
    {
        match self.phase {
            Phase::Accepting => if self.in_flight < self.cap {
                Wait::ConnectionOrShutdown
            } else {
                Wait::TaskCompletion
            },
            Phase::Draining => Wait::TaskCompletion,
            Phase::Stopped => Wait::Done,
        }
    }

    /// Admits a new task and returns its ticket, if the loop accepts work
    /// and is below its cap.
    pub fn spawn(&mut self) -> (r: Result<u64, SubmitError>)
        requires
            old(self).wf(),
            old(self).phase() == Phase::Accepting && old(self).count() < old(self).cap()
                ==> old(self).spawned() < u64::MAX,
        ensures
            final(self).wf(),
            final(self).phase() == old(self).phase(),
            final(self).cap() == old(self).cap(),
            final(self).reaped() == old(self).reaped(),
            old(self).phase() != Phase::Accepting ==> {
                &&& r == Err::<u64, SubmitError>(SubmitError::Closed)
                &&& *final(self) == *old(self)
            },
            old(self).phase() == Phase::Accepting && old(self).count() == old(self).cap() ==> {
                &&& r == Err::<u64, SubmitError>(SubmitError::AtCapacity)
                &&& *final(self) == *old(self)
            },
            old(self).phase() == Phase::Accepting && old(self).count() < old(self).cap() ==> {
                &&& r == Ok::<u64, SubmitError>(old(self).spawned() as u64)
                &&& final(self).spawned() == old(self).spawned() + 1
                &&& final(self).outstanding() == old(self).outstanding().insert(old(self).spawned())
                &&& final(self).count() == old(self).count() + 1
            },
    {
        match self.phase {
            Phase::Accepting => {},
            _ => {
                return Err(SubmitError::Closed);
            },
        }
        if self.in_flight == self.cap {
            return Err(SubmitError::AtCapacity);
        }
        let t = self.next_ticket;
        proof {
            assert(!self.outstanding@.contains(t as nat));
            self.outstanding@ = self.outstanding@.insert(t as nat);
        }
        self.next_ticket = t + 1;
        self.in_flight = self.in_flight + 1;
        proof {
            assert forall|k: int| 0 <= k < self.reaped().len() implies #[trigger] self.reaped()[k]
                < self.spawned() by {}
            assert forall|u: nat| u < self.spawned() implies (#[trigger] self.reaped().contains(u)
                <==> !self.outstanding().contains(u)) by {
                if u == t as nat {
                    if self.reaped().contains(u) {
                        let k = choose|k: int| 0 <= k < self.reaped().len() && self.reaped()[k] == u;
                    }
                }
            }
        }
        Ok(t)
    }

    /// The shutdown signal: accepting stops; the loop drains the
    /// outstanding tasks, or stops at once when there are none.
    pub fn shutdown(&mut self)
        requires
            old(self).wf(),
        ensures
            final(self).wf(),
            final(self).cap() == old(self).cap(),
            final(self).spawned() == old(self).spawned(),
            final(self).outstanding() == old(self).outstanding(),
            final(self).count() == old(self).count(),
            final(self).reaped() == old(self).reaped(),
            old(self).phase() == Phase::Accepting ==> final(self).phase() == (if old(self).count() == 0 {
                Phase::Stopped
            } else {
                Phase::Draining
            }),
            old(self).phase() != Phase::Accepting ==> final(self).phase() == old(self).phase(),
    {
        match self.phase {
            Phase::Accepting => {
                if self.in_flight == 0 {
                    self.phase = Phase::Stopped;
                } else {
                    self.phase = Phase::Draining;
                }
            },
            _ => {},
        }
    }

    /// Records that the task of ticket `t` has completed and was reaped.
    /// Draining ends, and the loop stops, with the last outstanding task.
    pub fn reap(&mut self, t: u64)
        requires
            old(self).wf(),
            old(self).outstanding().contains(t as nat),
        ensures
            final(self).wf(),
            final(self).cap() == old(self).cap(),
            final(self).spawned() == old(self).spawned(),
            final(self).outstanding() == old(self).outstanding().remove(t as nat),
            final(self).count() + 1 == old(self).count(),
            final(self).reaped() == old(self).reaped().push(t as nat),
            final(self).phase() == (if old(self).phase() == Phase::Draining && final(self).count()
                == 0 {
                Phase::Stopped
            } else {
                old(self).phase()
            }),
    {
        let ghost old_self = *self;
        proof {
            self.outstanding@ = self.outstanding@.remove(t as nat);
            self.reaped@ = self.reaped@.push(t as nat);
        }
        self.in_flight = self.in_flight - 1;
        match self.phase {
            Phase::Draining => {
                if self.in_flight == 0 {
                    self.phase = Phase::Stopped;
                }
            },
            _ => {},
        }
        proof {
            let r0 = old_self.reaped();
            assert(!r0.contains(t as nat));
            assert forall|k: int| 0 <= k < self.reaped().len() implies #[trigger] self.reaped()[k]
                < self.spawned() by {
                if k < r0.len() {
                    assert(self.reaped()[k] == r0[k]);
                }
            }
            assert forall|i: int, j: int|
                0 <= i < self.reaped().len() && 0 <= j < self.reaped().len() && i != j
                implies self.reaped()[i] != self.reaped()[j] by {
                if i < r0.len() && j < r0.len() {
                    assert(self.reaped()[i] == r0[i]);
                    assert(self.reaped()[j] == r0[j]);
                } else if i < r0.len() {
                    assert(self.reaped()[i] == r0[i]);
                    assert(r0.contains(r0[i]));
                } else {
                    assert(self.reaped()[j] == r0[j]);
                    assert(r0.contains(r0[j]));
                }
            }
            assert forall|u: nat| u < self.spawned() implies (#[trigger] self.reaped().contains(u)
                <==> !self.outstanding().contains(u)) by {
                if u != t as nat {
                    if r0.contains(u) {
                        let k = choose|k: int| 0 <= k < r0.len() && r0[k] == u;
                        assert(self.reaped()[k] == r0[k]);
                    }
                    if self.reaped().contains(u) {
                        let k = choose|k: int| 0 <= k < self.reaped().len() && self.reaped()[k] == u;
                        assert(k < r0.len());
                        assert(r0[k] == u);
                    }
                } else {
                    assert(self.reaped()[r0.len() as int] == u);
                }
            }
        }
    }
}

/// Drain, not abandon: once the loop has stopped, no task is outstanding,
/// and every task it spawned has been reaped exactly once.
pub proof fn lemma_stopped_means_drained(tracker: TaskTracker)
    requires
        tracker.wf(),
        tracker.phase() == Phase::Stopped,
    ensures
        tracker.outstanding().is_empty(),
        tracker.reaped().no_duplicates(),
        tracker.reaped().len() == tracker.spawned(),
        forall|t: nat| t < tracker.spawned() <==> #[trigger] tracker.reaped().contains(t),
{
    assert(tracker.outstanding() =~= Set::<nat>::empty()) by {
        if exists|t: nat| tracker.outstanding().contains(t) {
            let t = choose|t: nat| tracker.outstanding().contains(t);
            assert(tracker.outstanding().len() > 0) by {
                vstd::set_lib::lemma_set_empty_equivalency_len(tracker.outstanding());
            }
        }
    }
    assert forall|t: nat| t < tracker.spawned() <==> #[trigger] tracker.reaped().contains(t) by {
        if tracker.reaped().contains(t) {
            let k = choose|k: int| 0 <= k < tracker.reaped().len() && tracker.reaped()[k] == t;
        }
    }
    lemma_unique_range_len(tracker.reaped(), tracker.spawned());
}

} // verus!
