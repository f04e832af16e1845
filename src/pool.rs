//! The bookkeeping of the thread-pool runtime: a shared intake queue of jobs
//! and the state of each worker.
//!
//! The worker threads themselves live outside this module. Each of them, with
//! the pool locked, calls [`WorkerPool::take`]: it gets the oldest queued job,
//! is told to wait for one, or (once the queue is closed and drained) is told
//! to exit. After running a job the worker reports it with
//! [`WorkerPool::finish`]. Every job is given a ticket, its submission number,
//! and the pool keeps, as ghost state, what became of each ticket and the log
//! of tickets handed to workers.
//!
//! The queue is unbounded: a submission never waits. It either joins the
//! back of the queue or, once shutdown has closed the queue, fails at once.

use vstd::prelude::*;

verus! {

/// Why a runtime could not be built.
#[derive(Clone, Copy, Debug, PartialEq, Eq, Structural)]
pub enum ConfigError {
    /// A runtime needs at least one worker, or room for one task.
    ZeroWorkers,
}

/// Why a job was refused.
#[derive(Clone, Copy, Debug, PartialEq, Eq, Structural)]
pub enum SubmitError {
    /// Shutdown has closed the intake: no job is accepted any more.
    Closed,
    /// As many tasks are outstanding as the runtime allows; completed ones
    /// must be reaped first.
    AtCapacity,
}

/// What became of a submitted job.
pub enum JobStatus {
    /// Waiting in the queue.
    Queued,
    /// Being run by the worker of this index.
    Running(usize),
    /// Run to its end.
    Done,
}

/// What a worker is told to do next.
pub enum Take<J> {
    /// Run this job, whose ticket is given.
    Job(u64, J),
    /// The queue is empty but open: wait for a submission.
    Wait,
    /// The queue is closed and drained: exit.
    Finished,
}

/// A job runtime that accepts jobs until it is closed.
pub trait HandlingRuntime<J> {
    /// The runtime's invariant.
    spec fn inv(&self) -> bool;

    /// The runtime still accepts jobs.
    spec fn accepting(&self) -> bool;

    /// The jobs submitted and not yet handed out, oldest first.
    spec fn jobs(&self) -> Seq<J>;

    /// The runtime can count one more submission (a machine limit on the
    /// number of submissions).
    spec fn has_room(&self) -> bool;

    /// Submits `job`: while the runtime accepts jobs, it joins the back of
    /// the queue; otherwise the call fails with [`SubmitError::Closed`] and
    /// the queue is left as it was.
    fn execute(&mut self, job: J) -> (r: Result<(), SubmitError>)
        requires
            old(self).inv(),
            old(self).accepting() ==> old(self).has_room(),
        ensures
            final(self).inv(),
            final(self).accepting() == old(self).accepting(),
            old(self).accepting() ==> r is Ok && final(self).jobs() == old(self).jobs().push(job),
            !old(self).accepting() ==> r == Err::<(), SubmitError>(SubmitError::Closed)
                && final(self).jobs() == old(self).jobs(),
    ;
}

/// The intake queue of a fixed set of workers.
pub struct WorkerPool<J> {
    queue: std::collections::VecDeque<(u64, J)>,
    next_ticket: u64,
    closed: bool,
    busy: Vec<Option<u64>>,
    exited: Vec<bool>,
    status: Ghost<Seq<JobStatus>>,
    handed: Ghost<Seq<nat>>,
}

impl<J> WorkerPool<J> {
    /// The queued jobs with their tickets, oldest first.
    pub closed spec fn queue(&self) -> Seq<(u64, J)> {
        self.queue@
    }

    /// Number of jobs submitted so far; tickets are `0..issued()`.
    pub closed spec fn issued(&self) -> nat {
        self.next_ticket as nat
    }

    pub closed spec fn is_closed(&self) -> bool {
        self.closed
    }

    /// For each worker, the ticket of the job it runs, if any.
    pub closed spec fn busy(&self) -> Seq<Option<u64>> {
        self.busy@
    }

    /// For each worker, whether it has been told to exit.
    pub closed spec fn exited(&self) -> Seq<bool> {
        self.exited@
    }

    /// What became of each ticket.
    pub closed spec fn status(&self) -> Seq<JobStatus> {
        self.status@
    }

    /// The tickets handed to workers, in the order they were handed out.
    pub closed spec fn handed(&self) -> Seq<nat> {
        self.handed@
    }

    pub open spec fn workers(&self) -> nat {
        self.busy().len()
    }

    pub open spec fn all_exited(&self) -> bool {
        forall|w: int| 0 <= w < self.workers() ==> #[trigger] self.exited()[w]
    }

    /// What is left to do: two steps for each queued job (to be taken, then
    /// finished), one for each running job, and one for each worker that
    /// has not exited yet. Once the queue is closed, every call of `take`
    /// or `finish` lowers it, and it is zero exactly when every worker has
    /// exited, so the drain that shutdown waits for comes to an end.
    pub open spec fn work_left(&self) -> nat {
        2 * self.queue().len() + count_true(self.busy().map_values(|b: Option<u64>| b is Some))
            + count_true(self.exited().map_values(|e: bool| !e))
    }

    /// The pool's invariant.
    pub open spec fn wf(&self) -> bool {
        let q = self.queue();
        let n = self.issued();
        let st = self.status();
        let busy = self.busy();
        &&& busy.len() == self.exited().len()
        &&& 1 <= busy.len() <= usize::MAX
        &&& st.len() == n
        &&& forall|i: int|
            0 <= i < q.len() ==> (#[trigger] q[i]).0 < n && st[q[i].0 as int] is Queued
        &&& forall|i: int, j: int| 0 <= i < j < q.len() ==> (#[trigger] q[i]).0 < (#[trigger] q[j]).0
        &&& forall|t: int|
            0 <= t < n && (#[trigger] st[t]) is Queued ==> exists|i: int|
                0 <= i < q.len() && (#[trigger] q[i]).0 == t
        &&& forall|w: int|
            0 <= w < busy.len() && (#[trigger] busy[w]) is Some ==> busy[w]->0 < n
                && st[busy[w]->0 as int] == JobStatus::Running(w as usize)
        &&& forall|t: int|
            0 <= t < n && (#[trigger] st[t]) is Running ==> st[t]->0 < busy.len()
                && busy[st[t]->0 as int] == Some(t as u64)
        &&& forall|t: int| 0 <= t < n ==> (self.handed().contains(t as nat) <==> !(#[trigger] st[t] is Queued))
        &&& forall|k: int| 0 <= k < self.handed().len() ==> #[trigger] self.handed()[k] < n
        &&& self.handed().no_duplicates()
        &&& forall|w: int|
            0 <= w < busy.len() && #[trigger] self.exited()[w] ==> busy[w] is None && self.is_closed()
                && q.len() == 0
    }

    /// A pool of `workers` idle workers and an open, empty queue.
    pub fn new(workers: usize) -> (r: Result<Self, ConfigError>)
        ensures
            match r {
                Ok(p) => {
                    &&& workers > 0
                    &&& p.wf()
                    &&& p.workers() == workers
                    &&& p.queue().len() == 0
                    &&& p.issued() == 0
                    &&& !p.is_closed()
                    &&& forall|w: int| 0 <= w < workers ==> (#[trigger] p.busy()[w]) is None && !p.exited()[w]
                    &&& p.handed().len() == 0
                },
                Err(e) => workers == 0 && e == ConfigError::ZeroWorkers,
            },
    {
        if workers == 0 {
            return Err(ConfigError::ZeroWorkers);
        }
        let mut busy: Vec<Option<u64>> = Vec::new();
        let mut exited: Vec<bool> = Vec::new();
        let mut i: usize = 0;
        while i < workers
            invariant
                0 <= i <= workers,
                busy@.len() == i,
                exited@.len() == i,
                forall|w: int| 0 <= w < i ==> (#[trigger] busy@[w]) is None && !exited@[w],
            decreases workers - i,
        {
            busy.push(None);
            exited.push(false);
            i = i + 1;
        }
        Ok(WorkerPool {
            queue: std::collections::VecDeque::new(),
            next_ticket: 0,
            closed: false,
            busy,
            exited,
            status: Ghost(Seq::empty()),
            handed: Ghost(Seq::empty()),
        })
    }

    /// Number of workers.
    pub fn worker_count(&self) -> (r: usize)
        ensures
            r == self.workers(),
    {
        self.busy.len()
    }

    /// Number of jobs submitted so far.
    pub fn submitted(&self) -> (r: u64)
        ensures
            r == self.issued(),
    {
        self.next_ticket
    }

    /// Number of jobs waiting in the queue.
    pub fn pending(&self) -> (r: usize)
        ensures
            r == self.queue().len(),
    {
        self.queue.len()
    }

    /// Whether shutdown has closed the queue.
    pub fn closed(&self) -> (r: bool)
        ensures
            r == self.is_closed(),
    {
        self.closed
    }

    /// Whether worker `w` runs no job and has not exited.
    pub fn is_idle(&self, w: usize) -> (r: bool)
        requires
            w < self.workers(),
            self.wf(),
        ensures
            r == (self.busy()[w as int] is None && !self.exited()[w as int]),
    {
        self.busy[w].is_none() && !self.exited[w]
    }

    /// Whether every worker has been told to exit.
    pub fn every_worker_exited(&self) -> (r: bool)
        requires
            self.wf(),
        ensures
            r == self.all_exited(),
    {
        let mut w: usize = 0;
        while w < self.exited.len()
            invariant
                0 <= w <= self.exited@.len(),
                self.exited@.len() == self.workers(),
                forall|k: int| 0 <= k < w ==> #[trigger] self.exited()[k],
            decreases self.exited@.len() - w,
        {
            if !self.exited[w] {
                assert(!self.exited()[w as int]);
                return false;
            }
            w = w + 1;
        }
        true
    }

    /// Enqueues `job` at the back of the queue, unless the queue is closed.
    pub fn submit(&mut self, job: J) -> (r: Result<u64, SubmitError>)
        requires
            old(self).wf(),
            !old(self).is_closed() ==> old(self).issued() < u64::MAX,
        ensures
            final(self).wf(),
            final(self).is_closed() == old(self).is_closed(),
            final(self).busy() == old(self).busy(),
            final(self).exited() == old(self).exited(),
            final(self).handed() == old(self).handed(),
            old(self).is_closed() ==> {
                &&& r == Err::<u64, SubmitError>(SubmitError::Closed)
                &&& *final(self) == *old(self)
            },
            !old(self).is_closed() ==> {
                &&& r == Ok::<u64, SubmitError>(old(self).issued() as u64)
                &&& final(self).queue() == old(self).queue().push((old(self).issued() as u64, job))
                &&& final(self).issued() == old(self).issued() + 1
            },
    {
        if self.closed {
            return Err(SubmitError::Closed);
        }
        let t = self.next_ticket;
        let ghost q0 = self.queue@;
        self.queue.push_back((t, job));
        self.next_ticket = t + 1;
        self.status = Ghost(self.status@.push(JobStatus::Queued));
        proof {
            let q = self.queue@;
            let st = self.status@;
            assert forall|i: int| 0 <= i < q.len() implies (#[trigger] q[i]).0 < self.issued()
                && st[q[i].0 as int] is Queued by {
                if i < q0.len() {
                    assert(q[i] == q0[i]);
                }
            }
            assert forall|tt: int|
                0 <= tt < self.issued() && (#[trigger] st[tt]) is Queued implies exists|i: int|
                0 <= i < q.len() && (#[trigger] q[i]).0 == tt by {
                if tt == t {
                    assert(q[q0.len() as int].0 == tt);
                } else {
                    let i = choose|i: int| 0 <= i < q0.len() && (#[trigger] q0[i]).0 == tt;
                    assert(q[i] == q0[i]);
                }
            }
            assert forall|k: int| 0 <= k < self.handed().len() implies #[trigger] self.handed()[k]
                < self.issued() by {}
        }
        Ok(t)
    }

    /// Tells worker `w` what to do next: the oldest queued job, which it
    /// then runs; or to wait, while the queue is open and empty; or to exit,
    /// once the queue is closed and empty.
    pub fn take(&mut self, w: usize) -> (r: Take<J>)
        requires
            old(self).wf(),
            w < old(self).workers(),
            old(self).busy()[w as int] is None,
            !old(self).exited()[w as int],
        ensures
            final(self).wf(),
            final(self).issued() == old(self).issued(),
            final(self).is_closed() == old(self).is_closed(),
            old(self).queue().len() > 0 ==> {
                &&& r matches Take::Job(t, job) && (t, job) == old(self).queue()[0]
                &&& final(self).queue() == old(self).queue().drop_first()
                &&& final(self).busy() == old(self).busy().update(w as int, Some(old(self).queue()[0].0))
                &&& final(self).exited() == old(self).exited()
                &&& final(self).handed() == old(self).handed().push(old(self).queue()[0].0 as nat)
            },
            old(self).queue().len() == 0 && old(self).is_closed() ==> {
                &&& r is Finished
                &&& final(self).queue() == old(self).queue()
                &&& final(self).busy() == old(self).busy()
                &&& final(self).exited() == old(self).exited().update(w as int, true)
                &&& final(self).handed() == old(self).handed()
            },
            old(self).is_closed() ==> final(self).work_left() < old(self).work_left(),
            old(self).queue().len() == 0 && !old(self).is_closed() ==> {
                &&& r is Wait
                &&& final(self).queue() == old(self).queue()
                &&& final(self).busy() == old(self).busy()
                &&& final(self).exited() == old(self).exited()
                &&& final(self).handed() == old(self).handed()
            },
    {
        let ghost old_self = *self;
        let ghost q0 = self.queue@;
        match self.queue.pop_front() {
            Some(entry) => {
                let t = entry.0;
                self.busy.set(w, Some(t));
                proof {
                    assert(q0[0].0 == t);
                    let st0 = self.status@;
                    self.status@ = self.status@.update(t as int, JobStatus::Running(w));
                    self.handed@ = self.handed@.push(t as nat);
                    let q = self.queue@;
                    let st = self.status@;
                    let busy = self.busy@;
                    assert(q =~= q0.drop_first());
                    assert forall|i: int| 0 <= i < q.len() implies (#[trigger] q[i]).0 < self.issued()
                        && st[q[i].0 as int] is Queued by {
                        assert(q[i] == q0[i + 1]);
                        assert(q0[0].0 < q0[i + 1].0);
                    }
                    assert forall|i: int, j: int| 0 <= i < j < q.len() implies (#[trigger] q[i]).0
                        < (#[trigger] q[j]).0 by {
                        assert(q[i] == q0[i + 1]);
                        assert(q[j] == q0[j + 1]);
                    }
                    assert forall|tt: int|
                        0 <= tt < self.issued() && (#[trigger] st[tt]) is Queued implies exists|i: int|
                        0 <= i < q.len() && (#[trigger] q[i]).0 == tt by {
                        assert(tt != t);
                        assert(st0[tt] is Queued);
                        let i = choose|i: int| 0 <= i < q0.len() && (#[trigger] q0[i]).0 == tt;
                        assert(i != 0);
                        assert(q[i - 1] == q0[i]);
                    }
                    assert forall|ww: int|
                        0 <= ww < busy.len() && (#[trigger] busy[ww]) is Some implies busy[ww]->0
                        < self.issued() && st[busy[ww]->0 as int] == JobStatus::Running(
                        ww as usize,
                    ) by {
                        if ww != w {
                            assert(old_self.busy@[ww] == busy[ww]);
                            assert(busy[ww]->0 != t);
                        }
                    }
                    assert forall|tt: int|
                        0 <= tt < self.issued() && (#[trigger] st[tt]) is Running implies st[tt]->0
                        < busy.len() && busy[st[tt]->0 as int] == Some(tt as u64) by {
                        if tt != t {
                            assert(st0[tt] == st[tt]);
                            assert(st0[tt]->0 != w);
                        }
                    }
                    assert forall|tt: int| 0 <= tt < self.issued() implies (self.handed().contains(
                        tt as nat,
                    ) <==> !(#[trigger] st[tt] is Queued)) by {
                        if tt != t {
                            assert(st0[tt] == st[tt]);
                            if old_self.handed().contains(tt as nat) {
                                let k = choose|k: int| 0 <= k < old_self.handed().len() && old_self.handed()[k] == tt as nat;
                                assert(self.handed()[k] == old_self.handed()[k]);
                            }
                            assert(self.handed().contains(tt as nat) ==> (old_self.handed().contains(tt as nat)
                                || self.handed().last() == tt as nat));
                        } else {
                            assert(self.handed().last() == tt as nat);
                        }
                    }
                    assert(!old_self.handed().contains(t as nat));
                    assert forall|k: int| 0 <= k < self.handed().len() implies #[trigger] self.handed()[k]
                        < self.issued() by {
                        if k < old_self.handed().len() {
                            assert(self.handed()[k] == old_self.handed()[k]);
                        }
                    }
                    assert forall|i: int, j: int|
                        0 <= i < self.handed().len() && 0 <= j < self.handed().len() && i != j
                        implies self.handed()[i] != self.handed()[j] by {
                        let h0 = old_self.handed();
                        if i < h0.len() && j < h0.len() {
                            assert(self.handed()[i] == h0[i]);
                            assert(self.handed()[j] == h0[j]);
                        } else if i < h0.len() {
                            assert(self.handed()[i] == h0[i]);
                            assert(h0.contains(h0[i]));
                        } else {
                            assert(self.handed()[j] == h0[j]);
                            assert(h0.contains(h0[j]));
                        }
                    }
                    assert forall|ww: int|
                        0 <= ww < busy.len() && #[trigger] self.exited()[ww] implies busy[ww] is None
                        && self.closed && q.len() == 0 by {
                        assert(old_self.exited()[ww]);
                    }
                }
                proof {
                    let b0 = old_self.busy@.map_values(|b: Option<u64>| b is Some);
                    assert(self.busy@.map_values(|b: Option<u64>| b is Some) =~= b0.update(w as int, true));
                    lemma_count_true_update(b0, w as int, true);
                    assert(self.exited@.map_values(|e: bool| !e) =~= old_self.exited@.map_values(|e: bool| !e));
                }
                Take::Job(t, entry.1)
            },
            None => {
                if self.closed {
                    self.exited.set(w, true);
                    proof {
                        assert forall|ww: int|
                            0 <= ww < self.busy@.len() && #[trigger] self.exited()[ww] implies self.busy@[ww] is None
                            && self.closed && self.queue@.len() == 0 by {
                            if ww != w {
                                assert(old_self.exited()[ww]);
                            }
                        }
                    }
                    proof {
                        let l0 = old_self.exited@.map_values(|e: bool| !e);
                        assert(self.exited@.map_values(|e: bool| !e) =~= l0.update(w as int, false));
                        lemma_count_true_update(l0, w as int, false);
                    }
                    Take::Finished
                } else {
                    Take::Wait
                }
            },
        }
    }

    /// Records that worker `w` has run its job to the end.
    pub fn finish(&mut self, w: usize) -> (r: u64)
        requires
            old(self).wf(),
            w < old(self).workers(),
            old(self).busy()[w as int] is Some,
        ensures
            final(self).wf(),
            r == old(self).busy()[w as int]->0,
            final(self).queue() == old(self).queue(),
            final(self).issued() == old(self).issued(),
            final(self).is_closed() == old(self).is_closed(),
            final(self).busy() == old(self).busy().update(w as int, None),
            final(self).exited() == old(self).exited(),
            final(self).handed() == old(self).handed(),
            final(self).status()[r as int] is Done,
            final(self).work_left() < old(self).work_left(),
    {
        let ghost old_self = *self;
        let t = match self.busy[w] {
            Some(t) => t,
            None => 0,
        };
        self.busy.set(w, None);
        proof {
            let st0 = self.status@;
            self.status@ = self.status@.update(t as int, JobStatus::Done);
            let st = self.status@;
            let busy = self.busy@;
            let q = self.queue@;
            assert forall|i: int| 0 <= i < q.len() implies (#[trigger] q[i]).0 < self.issued()
                && st[q[i].0 as int] is Queued by {
                assert(st0[q[i].0 as int] is Queued);
            }
            assert forall|tt: int|
                0 <= tt < self.issued() && (#[trigger] st[tt]) is Queued implies exists|i: int|
                0 <= i < q.len() && (#[trigger] q[i]).0 == tt by {
                assert(st0[tt] is Queued);
            }
            assert forall|ww: int|
                0 <= ww < busy.len() && (#[trigger] busy[ww]) is Some implies busy[ww]->0
                < self.issued() && st[busy[ww]->0 as int] == JobStatus::Running(ww as usize) by {
                assert(ww != w as int);
                assert(old_self.busy@[ww] == busy[ww]);
                assert(old_self.busy@.len() <= usize::MAX);
                assert((ww as usize) as int == ww);
                assert(st0[t as int] == JobStatus::Running(w));
                assert(st0[busy[ww]->0 as int] == JobStatus::Running(ww as usize));
                assert(busy[ww]->0 != t);
            }
            assert forall|tt: int|
                0 <= tt < self.issued() && (#[trigger] st[tt]) is Running implies st[tt]->0
                < busy.len() && busy[st[tt]->0 as int] == Some(tt as u64) by {
                assert(st0[tt] == st[tt]);
                assert(st0[tt]->0 != w);
            }
            assert forall|tt: int| 0 <= tt < self.issued() implies (self.handed().contains(tt as nat)
                <==> !(#[trigger] st[tt] is Queued)) by {
                assert(st0[tt] is Queued ==> st[tt] is Queued);
                assert(tt != t ==> st0[tt] == st[tt]);
            }
            assert forall|ww: int|
                0 <= ww < busy.len() && #[trigger] self.exited()[ww] implies busy[ww] is None
                && self.closed && q.len() == 0 by {
                assert(old_self.exited()[ww]);
            }
            let b0 = old_self.busy@.map_values(|b: Option<u64>| b is Some);
            assert(self.busy@.map_values(|b: Option<u64>| b is Some) =~= b0.update(w as int, false));
            lemma_count_true_update(b0, w as int, false);
        }
        t
    }

    /// Closes the queue: every later submission fails. Jobs already queued
    /// are still handed out.
    pub fn close(&mut self)
        requires
            old(self).wf(),
        ensures
            final(self).wf(),
            final(self).is_closed(),
            final(self).queue() == old(self).queue(),
            final(self).issued() == old(self).issued(),
            final(self).busy() == old(self).busy(),
            final(self).exited() == old(self).exited(),
            final(self).handed() == old(self).handed(),
            final(self).status() == old(self).status(),
    {
        self.closed = true;
    }
}

impl<J> HandlingRuntime<J> for WorkerPool<J> {
    open spec fn inv(&self) -> bool {
        self.wf()
    }

    open spec fn accepting(&self) -> bool {
        !self.is_closed()
    }

    open spec fn jobs(&self) -> Seq<J> {
        self.queue().map_values(|entry: (u64, J)| entry.1)
    }

    open spec fn has_room(&self) -> bool {
        self.issued() < u64::MAX
    }

    fn execute(&mut self, job: J) -> (r: Result<(), SubmitError>)
        ensures
            old(self).is_closed() ==> *final(self) == *old(self),
            !old(self).is_closed() ==> {
                &&& final(self).queue() == old(self).queue().push((old(self).issued() as u64, job))
                &&& final(self).issued() == old(self).issued() + 1
            },
            final(self).busy() == old(self).busy(),
            final(self).exited() == old(self).exited(),
            final(self).handed() == old(self).handed(),
    {
        let ghost q0 = self.queue();
        let r = match self.submit(job) {
            Ok(_) => Ok(()),
            Err(e) => Err(e),
        };
        proof {
            if !self.is_closed() {
                assert(self.jobs() =~= q0.map_values(|entry: (u64, J)| entry.1).push(job));
            }
        }
        r
    }
}

/// When the queue is closed and every worker has been told to exit (which
/// is when shutdown's joins return), every submitted job has been run: the
/// queue is empty, no worker holds a job, every ticket is done, and the log
/// of tickets handed to workers holds each ticket exactly once.
pub proof fn lemma_every_job_runs_once<J>(pool: WorkerPool<J>)
    requires
        pool.wf(),
        pool.is_closed(),
        pool.all_exited(),
    ensures
        pool.queue().len() == 0,
        forall|w: int| 0 <= w < pool.workers() ==> (#[trigger] pool.busy()[w]) is None,
        forall|t: int| 0 <= t < pool.issued() ==> (#[trigger] pool.status()[t]) is Done,
        pool.handed().no_duplicates(),
        pool.handed().len() == pool.issued(),
        forall|t: nat| t < pool.issued() <==> #[trigger] pool.handed().contains(t),
{
    assert(pool.exited()[0]);
    let n = pool.issued();
    assert forall|w: int| 0 <= w < pool.workers() implies (#[trigger] pool.busy()[w]) is None by {
        assert(pool.exited()[w]);
    }
    assert forall|t: int| 0 <= t < n implies (#[trigger] pool.status()[t]) is Done by {
        let st = pool.status();
        if st[t] is Running {
            assert(pool.busy()[st[t]->0 as int] is Some);
        }
        if st[t] is Queued {
            let i = choose|i: int| 0 <= i < pool.queue().len() && (#[trigger] pool.queue()[i]).0 == t;
        }
    }
    assert forall|t: nat| t < n <==> #[trigger] pool.handed().contains(t) by {
        if pool.handed().contains(t) {
            let k = choose|k: int| 0 <= k < pool.handed().len() && pool.handed()[k] == t;
            assert(pool.handed()[k] < n);
        }
        if t < n {
            assert(!(pool.status()[t as int] is Queued));
        }
    }
    lemma_unique_range_len(pool.handed(), n);
}

/// Number of `true` entries in `s`.
pub open spec fn count_true(s: Seq<bool>) -> nat
    decreases s.len(),
{
    if s.len() == 0 {
        0
    } else {
        count_true(s.drop_last()) + if s.last() {
            1nat
        } else {
            0nat
        }
    }
}

proof fn lemma_count_true_update(s: Seq<bool>, i: int, b: bool)
    requires
        0 <= i < s.len(),
    ensures
        count_true(s.update(i, b)) + (if s[i] {
            1nat
        } else {
            0nat
        }) == count_true(s) + (if b {
            1nat
        } else {
            0nat
        }),
    decreases s.len(),
{
    if i == s.len() - 1 {
        assert(s.update(i, b).drop_last() =~= s.drop_last());
    } else {
        lemma_count_true_update(s.drop_last(), i, b);
        assert(s.update(i, b).drop_last() =~= s.drop_last().update(i, b));
    }
}

proof fn lemma_count_true_zero(s: Seq<bool>)
    ensures
        count_true(s) == 0 <==> forall|i: int| 0 <= i < s.len() ==> !#[trigger] s[i],
    decreases s.len(),
{
    if s.len() > 0 {
        lemma_count_true_zero(s.drop_last());
        if count_true(s) == 0 {
            assert forall|i: int| 0 <= i < s.len() implies !#[trigger] s[i] by {
                if i < s.len() - 1 {
                    assert(s[i] == s.drop_last()[i]);
                }
            }
        } else if forall|i: int| 0 <= i < s.len() ==> !#[trigger] s[i] {
            assert forall|i: int| 0 <= i < s.drop_last().len() implies !#[trigger] s.drop_last()[i] by {
                assert(s[i] == s.drop_last()[i]);
            }
            assert(!s[s.len() - 1]);
        }
    }
}

/// With the queue closed, no work is left exactly when every worker has
/// exited: a pool whose workers have not all exited still has a step to
/// take, and each step lowers [`WorkerPool::work_left`].
pub proof fn lemma_no_work_left_iff_all_exited<J>(pool: WorkerPool<J>)
    requires
        pool.wf(),
        pool.is_closed(),
    ensures
        pool.work_left() == 0 <==> pool.all_exited(),
{
    let busy = pool.busy().map_values(|b: Option<u64>| b is Some);
    let live = pool.exited().map_values(|e: bool| !e);
    lemma_count_true_zero(busy);
    lemma_count_true_zero(live);
    if pool.all_exited() {
        assert(pool.exited()[0]);
        assert forall|i: int| 0 <= i < live.len() implies !#[trigger] live[i] by {
            assert(pool.exited()[i]);
        }
        assert forall|i: int| 0 <= i < busy.len() implies !#[trigger] busy[i] by {
            assert(pool.exited()[i]);
        }
    }
    if pool.work_left() == 0 {
        assert forall|w: int| 0 <= w < pool.workers() implies #[trigger] pool.exited()[w] by {
            assert(!live[w]);
        }
    }
}

/// A sequence without duplicates whose elements are exactly `0..n` has
/// length `n`.
pub(crate) proof fn lemma_unique_range_len(s: Seq<nat>, n: nat)
    requires
        s.no_duplicates(),
        forall|t: nat| t < n <==> #[trigger] s.contains(t),
    ensures
        s.len() == n,
{
    let set = s.to_set();
    s.unique_seq_to_set();
    assert(set =~= Set::new(|t: nat| t < n));
    lemma_range_set_len(n);
}

proof fn lemma_range_set_len(n: nat)
    ensures
        Set::new(|t: nat| t < n).finite(),
        Set::new(|t: nat| t < n).len() == n,
    decreases n,
{
    if n == 0 {
        assert(Set::new(|t: nat| t < n) =~= Set::<nat>::empty());
    } else {
        lemma_range_set_len((n - 1) as nat);
        assert(Set::new(|t: nat| t < n) =~= Set::new(|t: nat| t < (n - 1) as nat).insert((n - 1) as nat));
    }
}

} // verus!
