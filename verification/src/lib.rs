//! A fixed-size worker pool, verified as a state machine.
//!
//! The pool owns the sending side of an unbounded FIFO work queue and a fixed
//! collection of workers that share its single receiving end. This crate holds
//! the pool's entire decision logic and bookkeeping: which submissions are
//! accepted, in what order jobs are handed out, how workers leave their loops,
//! and what teardown may conclude. The operations that only an operating
//! system can perform - spawning a thread, blocking on a channel, joining -
//! are events reported to this state machine by the embedding program.
//!
//! A job is identified by the `u64` token its submitter chose; the pool
//! attaches no meaning to it beyond its position in submission order.

use vstd::multiset::Multiset;
use vstd::prelude::*;

pub mod laws;
pub mod worker;

use crate::worker::ExitCause;
use crate::worker::Worker;
use crate::worker::WorkerStatus;

verus! {

/// The ways a pool operation can fail.
#[derive(Clone, Copy, Debug, PartialEq, Eq, Structural)]
pub enum PoolError {
    /// Construction was asked for a pool of zero workers.
    InvalidSize,
    /// The execution substrate refused to create a thread during construction.
    SpawnError,
    /// A submission arrived after the sending handle was retired.
    ChannelClosed,
}

/// Where the pool stands in its one-way lifecycle.
#[derive(Clone, Copy, Debug, PartialEq, Eq, Structural)]
pub enum PoolPhase {
    /// The sending handle is present; submissions are accepted.
    Active,
    /// The sending handle is retired; queued jobs are still being consumed.
    Draining,
    /// Every worker has been joined; the pool is inert.
    Stopped,
}

/// The outcome of one dequeue attempt by a worker.
#[derive(Clone, Copy, Debug, PartialEq, Eq, Structural)]
pub enum DequeueSignal {
    /// The queue handed over the job at its front.
    Delivered(u64),
    /// The queue is empty but the sending handle is still present: the worker
    /// keeps waiting and will attempt again.
    Empty,
    /// The sending handle is retired and the queue is drained: no job will
    /// ever arrive, and the worker has left its loop.
    Closed,
}

/// The pool: the sending side of the work queue and the fixed collection of
/// workers created at construction.
///
/// The fields are the observable model state; every operation requires and
/// preserves [`ThreadPool::well_formed`].
pub struct ThreadPool {
    /// Where the pool stands in its lifecycle.
    pub phase: PoolPhase,
    /// Jobs submitted but not yet handed to a worker, oldest first.
    pub pending: std::collections::VecDeque<u64>,
    /// Jobs handed to a worker, in hand-off order.
    pub delivered: Vec<u64>,
    /// Jobs whose execution has finished, normally or by aborting the worker,
    /// in finish order.
    pub executed: Vec<u64>,
    /// The workers, indexed by their identity.
    pub workers: Vec<Worker>,
}

impl ThreadPool {
    /// Every job ever submitted, in submission order: first those already
    /// handed to a worker, then those still queued.
    pub open spec fn submitted(self) -> Seq<u64> {
        self.delivered@ + self.pending@
    }

    /// The fixed number of workers the pool was built with.
    pub open spec fn size(self) -> nat {
        self.workers@.len()
    }

    /// Some worker has already observed the queue closed and drained.
    pub open spec fn drained_observed(self) -> bool {
        exists|i: int|
            0 <= i < self.workers@.len() && (#[trigger] self.workers@[i]).status
                == WorkerStatus::Exited(ExitCause::Exhausted)
    }

    /// The invariant every operation preserves.
    pub open spec fn well_formed(self) -> bool {
        &&& self.workers@.len() >= 1
        &&& (forall|i: int|
            0 <= i < self.workers@.len() ==> (#[trigger] self.workers@[i]).id == i)
        &&& (forall|i: int|
            0 <= i < self.workers@.len() ==> ((#[trigger] self.workers@[i]).status is Exited
                ==> self.workers@[i].current is None))
        &&& (self.executed@ + worker::in_flight_jobs(self.workers@)).to_multiset()
            == self.delivered@.to_multiset()
        &&& (self.workers@.len() == 1 ==> self.delivered@ == self.executed@
            + self.workers@[0].in_flight())
        &&& (self.drained_observed() ==> !(self.phase is Active) && self.pending@.len() == 0)
        &&& (self.phase is Stopped ==> forall|i: int|
            0 <= i < self.workers@.len() ==> (#[trigger] self.workers@[i]).status is Exited)
    }

    /// A pool as construction leaves it: active, nothing submitted, every
    /// worker running and idle.
    pub open spec fn fresh(self, pool_size: int) -> bool {
        &&& self.phase is Active
        &&& self.workers@.len() == pool_size
        &&& self.pending@.len() == 0
        &&& self.delivered@.len() == 0
        &&& self.executed@.len() == 0
        &&& (forall|i: int|
            0 <= i < self.workers@.len() ==> (#[trigger] self.workers@[i]).idle())
    }

    /// Creates a pool of exactly `pool_size` workers sharing one work queue.
    ///
    /// A size of zero is rejected with [`PoolError::InvalidSize`] and nothing
    /// is created. Otherwise the pool starts its life active, with every
    /// worker running and the queue empty.
    pub fn new(pool_size: usize) -> (r: Result<ThreadPool, PoolError>)
        ensures
            pool_size == 0 <==> r == Err::<ThreadPool, PoolError>(PoolError::InvalidSize),
            pool_size >= 1 ==> (r matches Ok(p) && p.well_formed() && p.fresh(pool_size as int)
                && worker::running_count(p.workers@) == pool_size),
    {
        Self::new_with_spawns(pool_size, pool_size)
    }

    /// Creates a pool of `pool_size` workers when the execution substrate is
    /// willing to grant only `spawns_granted` threads.
    ///
    /// A size of zero is rejected with [`PoolError::InvalidSize`]. When the
    /// substrate refuses a thread before all `pool_size` workers exist,
    /// construction stops at the first refusal and fails with
    /// [`PoolError::SpawnError`]: no pool value exists, so no partial pool
    /// can leak, and the workers created before the refusal are handed back
    /// to the substrate to terminate and join.
    pub fn new_with_spawns(pool_size: usize, spawns_granted: usize) -> (r: Result<
        ThreadPool,
        PoolError,
    >)
        ensures
            pool_size == 0 <==> r == Err::<ThreadPool, PoolError>(PoolError::InvalidSize),
            pool_size >= 1 && spawns_granted < pool_size ==> r == Err::<ThreadPool, PoolError>(
                PoolError::SpawnError,
            ),
            pool_size >= 1 && spawns_granted >= pool_size ==> (r matches Ok(p)
                && p.well_formed() && p.fresh(pool_size as int)
                && worker::running_count(p.workers@) == pool_size),
    {
        if pool_size == 0 {
            return Err(PoolError::InvalidSize);
        }
        let mut workers: Vec<Worker> = Vec::with_capacity(pool_size);
        let mut id: usize = 0;
        while id < pool_size
            invariant
                id <= pool_size,
                id <= spawns_granted,
                workers@.len() == id,
                forall|i: int|
                    0 <= i < id ==> (#[trigger] workers@[i]) == (Worker {
                        id: i as usize,
                        status: WorkerStatus::Running,
                        current: None,
                    }),
                worker::running_count(workers@) == id,
            decreases pool_size - id,
        {
            let w = match Worker::new(id, id < spawns_granted) {
                Ok(w) => w,
                Err(e) => {
                    return Err(e);
                },
            };
            let ghost prev = workers@;
            workers.push(w);
            proof {
                assert(workers@.drop_last() =~= prev);
            }
            id = id + 1;
        }
        let pool = ThreadPool {
            phase: PoolPhase::Active,
            pending: std::collections::VecDeque::new(),
            delivered: Vec::new(),
            executed: Vec::new(),
            workers,
        };
        proof {
            worker::lemma_in_flight_jobs_empty(pool.workers@);
            assert(pool.executed@ + worker::in_flight_jobs(pool.workers@) =~= pool.delivered@);
            assert(pool.submitted() =~= pool.delivered@ + pool.pending@);
        }
        Ok(pool)
    }

    /// Enqueues `job` on the work queue and returns at once, without waiting
    /// for any execution.
    ///
    /// The submission is accepted exactly when the pool is still active: it
    /// then stands at the back of the queue, behind every earlier submission.
    /// Once shutdown has begun the sending handle is gone, and the call fails
    /// with [`PoolError::ChannelClosed`] - the job is not taken, and the
    /// caller learns so.
    pub fn execute(&mut self, job: u64) -> (r: Result<(), PoolError>)
        requires
            old(self).well_formed(),
        ensures
            final(self).well_formed(),
            old(self).phase is Active ==> ({
                &&& r == Ok::<(), PoolError>(())
                &&& final(self).pending@ == old(self).pending@.push(job)
                &&& final(self).submitted() == old(self).submitted().push(job)
                &&& final(self).phase == old(self).phase
                &&& final(self).delivered@ == old(self).delivered@
                &&& final(self).executed@ == old(self).executed@
                &&& final(self).workers@ == old(self).workers@
            }),
            !(old(self).phase is Active) ==> ({
                &&& r == Err::<(), PoolError>(PoolError::ChannelClosed)
                &&& *final(self) == *old(self)
            }),
    {
        match self.phase {
            PoolPhase::Active => {
                self.pending.push_back(job);
                proof {
                    assert(self.submitted() =~= old(self).submitted().push(job));
                }
                Ok(())
            },
            _ => Err(PoolError::ChannelClosed),
        }
    }

    /// Begins shutdown by retiring the sending handle.
    ///
    /// An active pool moves to draining: no further submission is accepted,
    /// and once the queue is empty every worker will observe closure. On a
    /// pool already draining or stopped this is a no-op, so a second
    /// retirement changes nothing. Nothing else about the pool changes, and
    /// in particular no queued job is discarded.
    pub fn begin_shutdown(&mut self)
        requires
            old(self).well_formed(),
        ensures
            final(self).well_formed(),
            old(self).phase is Active ==> final(self).phase is Draining,
            !(old(self).phase is Active) ==> final(self).phase == old(self).phase,
            !(final(self).phase is Active),
            final(self).pending@ == old(self).pending@,
            final(self).delivered@ == old(self).delivered@,
            final(self).executed@ == old(self).executed@,
            final(self).workers@ == old(self).workers@,
            final(self).submitted() == old(self).submitted(),
    {
        match self.phase {
            PoolPhase::Active => {
                self.phase = PoolPhase::Draining;
            },
            _ => {},
        }
    }

    /// One dequeue attempt by worker `worker_id`, made while that worker
    /// alone holds the shared receiver's lock. The worker must be idle: the
    /// lock is never held across a job's execution, so a worker returns here
    /// only after finishing its previous job.
    ///
    /// A non-empty queue hands over its front job - the next one in
    /// submission order - and the worker takes it in hand. An empty queue on
    /// an active pool reports [`DequeueSignal::Empty`], changing nothing: the
    /// worker keeps waiting. An empty queue after shutdown has begun reports
    /// [`DequeueSignal::Closed`], and the worker leaves its loop for good
    /// with [`ExitCause::Exhausted`].
    pub fn try_dequeue(&mut self, worker_id: usize) -> (r: DequeueSignal)
        requires
            old(self).well_formed(),
            worker_id < old(self).size(),
            old(self).workers@[worker_id as int].idle(),
        ensures
            final(self).well_formed(),
            final(self).phase == old(self).phase,
            final(self).submitted() == old(self).submitted(),
            final(self).executed@ == old(self).executed@,
            final(self).size() == old(self).size(),
            old(self).pending@.len() > 0 ==> ({
                &&& r == DequeueSignal::Delivered(old(self).pending@[0])
                &&& final(self).pending@ == old(self).pending@.drop_first()
                &&& final(self).delivered@ == old(self).delivered@.push(old(self).pending@[0])
                &&& final(self).workers@ == old(self).workers@.update(
                    worker_id as int,
                    Worker {
                        id: worker_id,
                        status: WorkerStatus::Running,
                        current: Some(old(self).pending@[0]),
                    },
                )
            }),
            old(self).pending@.len() == 0 && old(self).phase is Active ==> ({
                &&& r == DequeueSignal::Empty
                &&& final(self).pending@ == old(self).pending@
                &&& final(self).delivered@ == old(self).delivered@
                &&& final(self).workers@ == old(self).workers@
            }),
            old(self).pending@.len() == 0 && !(old(self).phase is Active) ==> ({
                &&& r == DequeueSignal::Closed
                &&& final(self).pending@ == old(self).pending@
                &&& final(self).delivered@ == old(self).delivered@
                &&& final(self).workers@ == old(self).workers@.update(
                    worker_id as int,
                    Worker {
                        id: worker_id,
                        status: WorkerStatus::Exited(ExitCause::Exhausted),
                        current: None,
                    },
                )
            }),
    {
        proof {
            if old(self).phase is Stopped {
                assert(old(self).workers@[worker_id as int].status is Exited);
            }
        }
        match self.pending.pop_front() {
            Some(job) => {
                proof {
                    // A queued job means no worker has seen exhaustion yet.
                    assert(!old(self).drained_observed());
                }
                self.delivered.push(job);
                let mut w = self.workers[worker_id];
                w.current = Some(job);
                self.workers.set(worker_id, w);
                proof {
                    lemma_multiset_after_deliver(
                        old(self).executed@,
                        old(self).delivered@,
                        old(self).workers@,
                        worker_id as int,
                        job,
                        w,
                    );
                    assert(self.submitted() =~= old(self).submitted());
                    if self.workers@.len() == 1 {
                        assert(self.delivered@ =~= self.executed@ + self.workers@[0].in_flight());
                    }
                    assert(!self.drained_observed()) by {
                        assert(forall|i: int|
                            0 <= i < self.workers@.len() && i != worker_id ==> self.workers@[i]
                                == old(self).workers@[i]);
                    };
                }
                DequeueSignal::Delivered(job)
            },
            None => {
                match self.phase {
                    PoolPhase::Active => DequeueSignal::Empty,
                    _ => {
                        let mut w = self.workers[worker_id];
                        w.status = WorkerStatus::Exited(ExitCause::Exhausted);
                        self.workers.set(worker_id, w);
                        proof {
                            lemma_multiset_after_status_change(
                                old(self).executed@,
                                old(self).delivered@,
                                old(self).workers@,
                                worker_id as int,
                                w,
                            );
                            if self.workers@.len() == 1 {
                                assert(self.delivered@ =~= self.executed@
                                    + self.workers@[0].in_flight());
                            }
                        }
                        DequeueSignal::Closed
                    },
                }
            },
        }
    }

    /// Records that worker `worker_id` ran its job to completion, outside the
    /// lock, on its own thread. The job joins the executed sequence and the
    /// worker is idle again, ready for its next pass.
    pub fn complete_job(&mut self, worker_id: usize)
        requires
            old(self).well_formed(),
            worker_id < old(self).size(),
            old(self).workers@[worker_id as int].current is Some,
        ensures
            final(self).well_formed(),
            final(self).phase == old(self).phase,
            final(self).pending@ == old(self).pending@,
            final(self).delivered@ == old(self).delivered@,
            final(self).submitted() == old(self).submitted(),
            final(self).executed@ == old(self).executed@ + old(self).workers@[
                worker_id as int
            ].in_flight(),
            final(self).workers@ == old(self).workers@.update(
                worker_id as int,
                Worker { id: worker_id, status: WorkerStatus::Running, current: None },
            ),
    {
        let mut w = self.workers[worker_id];
        let job = w.current.unwrap();
        self.executed.push(job);
        w.current = None;
        self.workers.set(worker_id, w);
        proof {
            self.lemma_after_job_end(*old(self), worker_id, w, job);
        }
    }

    /// Records that worker `worker_id`'s job aborted abnormally while
    /// running, taking the worker's thread with it. The job still ran - it
    /// joins the executed sequence - but the worker leaves its loop for good
    /// with [`ExitCause::JobAbort`], and the pool's effective capacity
    /// shrinks by one. Nobody else is informed, and no replacement is made.
    pub fn abort_job(&mut self, worker_id: usize)
        requires
            old(self).well_formed(),
            worker_id < old(self).size(),
            old(self).workers@[worker_id as int].current is Some,
        ensures
            final(self).well_formed(),
            final(self).phase == old(self).phase,
            final(self).pending@ == old(self).pending@,
            final(self).delivered@ == old(self).delivered@,
            final(self).submitted() == old(self).submitted(),
            final(self).executed@ == old(self).executed@ + old(self).workers@[
                worker_id as int
            ].in_flight(),
            final(self).workers@ == old(self).workers@.update(
                worker_id as int,
                Worker {
                    id: worker_id,
                    status: WorkerStatus::Exited(ExitCause::JobAbort),
                    current: None,
                },
            ),
    {
        let mut w = self.workers[worker_id];
        let job = w.current.unwrap();
        self.executed.push(job);
        w.current = None;
        w.status = WorkerStatus::Exited(ExitCause::JobAbort);
        self.workers.set(worker_id, w);
        proof {
            self.lemma_after_job_end(*old(self), worker_id, w, job);
        }
    }

    /// The common argument that ending a job on one worker - normally or by
    /// aborting - preserves the invariant.
    proof fn lemma_after_job_end(self, prev: ThreadPool, worker_id: usize, w: Worker, job: u64)
        requires
            prev.well_formed(),
            worker_id < prev.size(),
            prev.workers@[worker_id as int].current == Some(job),
            w.id == worker_id,
            w.current is None,
            !(w.status == WorkerStatus::Exited(ExitCause::Exhausted)),
            self.phase == prev.phase,
            self.pending@ == prev.pending@,
            self.delivered@ == prev.delivered@,
            self.executed@ == prev.executed@.push(job),
            self.workers@ == prev.workers@.update(worker_id as int, w),
        ensures
            self.well_formed(),
            self.submitted() == prev.submitted(),
            self.executed@ == prev.executed@ + prev.workers@[worker_id as int].in_flight(),
    {
        lemma_multiset_after_finish(
            prev.executed@,
            prev.delivered@,
            prev.workers@,
            worker_id as int,
            job,
            w,
        );
        assert(self.executed@ =~= prev.executed@ + prev.workers@[
            worker_id as int
        ].in_flight());
        if prev.phase is Stopped {
            assert(prev.workers@[worker_id as int].status is Exited);
            assert(false);
        }
        if self.workers@.len() == 1 {
            assert(self.delivered@ =~= self.executed@ + self.workers@[0].in_flight());
        }
        if self.drained_observed() {
            let i = choose|i: int|
                0 <= i < self.workers@.len() && (#[trigger] self.workers@[i]).status
                    == WorkerStatus::Exited(ExitCause::Exhausted);
            assert(prev.workers@[i].status == WorkerStatus::Exited(ExitCause::Exhausted));
        }
    }

    /// Records that worker `worker_id` found the shared receiver's lock
    /// poisoned - a peer terminated abnormally while holding it - and left
    /// its loop for good with [`ExitCause::LockFailure`]. The condition is
    /// handled entirely by that worker; the pool and the submitters are not
    /// told.
    pub fn observe_poisoned(&mut self, worker_id: usize)
        requires
            old(self).well_formed(),
            worker_id < old(self).size(),
            old(self).workers@[worker_id as int].idle(),
        ensures
            final(self).well_formed(),
            final(self).phase == old(self).phase,
            final(self).pending@ == old(self).pending@,
            final(self).delivered@ == old(self).delivered@,
            final(self).executed@ == old(self).executed@,
            final(self).submitted() == old(self).submitted(),
            final(self).workers@ == old(self).workers@.update(
                worker_id as int,
                Worker {
                    id: worker_id,
                    status: WorkerStatus::Exited(ExitCause::LockFailure),
                    current: None,
                },
            ),
    {
        let mut w = self.workers[worker_id];
        w.status = WorkerStatus::Exited(ExitCause::LockFailure);
        self.workers.set(worker_id, w);
        proof {
            lemma_multiset_after_status_change(
                old(self).executed@,
                old(self).delivered@,
                old(self).workers@,
                worker_id as int,
                w,
            );
            if old(self).phase is Stopped {
                assert(old(self).workers@[worker_id as int].status is Exited);
            }
            if self.workers@.len() == 1 {
                assert(self.delivered@ =~= self.executed@ + self.workers@[0].in_flight());
            }
            if self.drained_observed() {
                let i = choose|i: int|
                    0 <= i < self.workers@.len() && (#[trigger] self.workers@[i]).status
                        == WorkerStatus::Exited(ExitCause::Exhausted);
                assert(old(self).workers@[i].status == WorkerStatus::Exited(
                    ExitCause::Exhausted,
                ));
            }
        }
    }

    /// Concludes teardown once every worker's thread has terminated and been
    /// joined. Possible only after the sending handle was retired and every
    /// worker has left its loop; the pool is then stopped, and stays so.
    pub fn finish_teardown(&mut self)
        requires
            old(self).well_formed(),
            !(old(self).phase is Active),
            forall|i: int|
                0 <= i < old(self).size() ==> (#[trigger] old(self).workers@[i]).status
                    is Exited,
        ensures
            final(self).well_formed(),
            final(self).phase is Stopped,
            final(self).pending@ == old(self).pending@,
            final(self).delivered@ == old(self).delivered@,
            final(self).executed@ == old(self).executed@,
            final(self).submitted() == old(self).submitted(),
            final(self).workers@ == old(self).workers@,
    {
        self.phase = PoolPhase::Stopped;
    }

    /// How many workers are still running their receive-execute loop.
    pub fn live_worker_count(&self) -> (n: usize)
        ensures
            n == worker::running_count(self.workers@),
    {
        let mut n: usize = 0;
        let mut i: usize = 0;
        while i < self.workers.len()
            invariant
                i <= self.workers@.len(),
                n <= i,
                n == worker::running_count(self.workers@.take(i as int)),
            decreases self.workers@.len() - i,
        {
            match self.workers[i].status {
                WorkerStatus::Running => {
                    n = n + 1;
                },
                _ => {},
            }
            i = i + 1;
            proof {
                assert(self.workers@.take(i as int).drop_last() =~= self.workers@.take(
                    i as int - 1,
                ));
            }
        }
        proof {
            assert(self.workers@.take(self.workers@.len() as int) =~= self.workers@);
        }
        n
    }
}

/// After a worker takes `job` in hand, the jobs finished and in hand still
/// account, as a multiset, for exactly the jobs handed out.
proof fn lemma_multiset_after_deliver(
    ex: Seq<u64>,
    del: Seq<u64>,
    ws: Seq<Worker>,
    i: int,
    job: u64,
    w: Worker,
)
    requires
        (ex + worker::in_flight_jobs(ws)).to_multiset() == del.to_multiset(),
        0 <= i < ws.len(),
        ws[i].current is None,
        w.current == Some(job),
    ensures
        (ex + worker::in_flight_jobs(ws.update(i, w))).to_multiset() == del.push(
            job,
        ).to_multiset(),
{
    broadcast use vstd::seq_lib::group_to_multiset_ensures;
    broadcast use vstd::multiset::group_multiset_axioms;
    broadcast use vstd::seq_lib::lemma_multiset_commutative;

    worker::lemma_in_flight_jobs_after_update(ws, i, w);
    let ifs_old = worker::in_flight_jobs(ws);
    let ifs_new = worker::in_flight_jobs(ws.update(i, w));
    assert(ws[i].in_flight() =~= Seq::<u64>::empty());
    assert(w.in_flight() =~= Seq::<u64>::empty().push(job));
    assert(Seq::<u64>::empty().to_multiset() =~= Multiset::<u64>::empty());
    assert(Seq::<u64>::empty().push(job).to_multiset() =~= Seq::<
        u64,
    >::empty().to_multiset().insert(job));
    assert forall|x: u64| ifs_new.to_multiset().count(x) == ifs_old.to_multiset().insert(
        job,
    ).count(x) by {
        assert(ifs_new.to_multiset().add(ws[i].in_flight().to_multiset()).count(x)
            == ifs_old.to_multiset().add(w.in_flight().to_multiset()).count(x));
    }
    assert(ifs_new.to_multiset() =~= ifs_old.to_multiset().insert(job));
    assert(del.push(job).to_multiset() =~= del.to_multiset().insert(job));
    assert((ex + ifs_new).to_multiset() =~= ex.to_multiset().add(ifs_new.to_multiset()));
    assert((ex + ifs_old).to_multiset() =~= ex.to_multiset().add(ifs_old.to_multiset()));
    assert forall|x: u64| (ex + ifs_new).to_multiset().count(x) == del.push(
        job,
    ).to_multiset().count(x) by {
        assert(ex.to_multiset().add(ifs_new.to_multiset()).count(x) == ex.to_multiset().count(x)
            + ifs_new.to_multiset().count(x));
        assert(ex.to_multiset().add(ifs_old.to_multiset()).count(x) == ex.to_multiset().count(x)
            + ifs_old.to_multiset().count(x));
        assert((ex + ifs_old).to_multiset().count(x) == del.to_multiset().count(x));
    }
    assert((ex + ifs_new).to_multiset() =~= del.push(job).to_multiset());
}

/// After a worker's job ends - the job moves from its hands to the finished
/// sequence - the account is likewise kept.
proof fn lemma_multiset_after_finish(
    ex: Seq<u64>,
    del: Seq<u64>,
    ws: Seq<Worker>,
    i: int,
    job: u64,
    w: Worker,
)
    requires
        (ex + worker::in_flight_jobs(ws)).to_multiset() == del.to_multiset(),
        0 <= i < ws.len(),
        ws[i].current == Some(job),
        w.current is None,
    ensures
        (ex.push(job) + worker::in_flight_jobs(ws.update(i, w))).to_multiset()
            == del.to_multiset(),
{
    broadcast use vstd::seq_lib::group_to_multiset_ensures;
    broadcast use vstd::multiset::group_multiset_axioms;
    broadcast use vstd::seq_lib::lemma_multiset_commutative;

    worker::lemma_in_flight_jobs_after_update(ws, i, w);
    let ifs_old = worker::in_flight_jobs(ws);
    let ifs_new = worker::in_flight_jobs(ws.update(i, w));
    assert(ws[i].in_flight() =~= Seq::<u64>::empty().push(job));
    assert(w.in_flight() =~= Seq::<u64>::empty());
    assert(Seq::<u64>::empty().to_multiset() =~= Multiset::<u64>::empty());
    assert(Seq::<u64>::empty().push(job).to_multiset() =~= Seq::<
        u64,
    >::empty().to_multiset().insert(job));
    assert forall|x: u64| ifs_new.to_multiset().insert(job).count(x)
        == ifs_old.to_multiset().count(x) by {
        assert(ifs_new.to_multiset().add(ws[i].in_flight().to_multiset()).count(x)
            == ifs_old.to_multiset().add(w.in_flight().to_multiset()).count(x));
        assert(ifs_new.to_multiset().insert(job).count(x) == ifs_new.to_multiset().add(
            Multiset::<u64>::empty().insert(job),
        ).count(x));
    }
    assert(ifs_new.to_multiset().insert(job) =~= ifs_old.to_multiset());
    assert(ex.push(job).to_multiset() =~= ex.to_multiset().insert(job));
    assert((ex.push(job) + ifs_new).to_multiset() =~= ex.push(job).to_multiset().add(
        ifs_new.to_multiset(),
    ));
    assert((ex + ifs_old).to_multiset() =~= ex.to_multiset().add(ifs_old.to_multiset()));
    assert forall|x: u64| (ex.push(job) + ifs_new).to_multiset().count(x)
        == del.to_multiset().count(x) by {
        assert(ex.push(job).to_multiset().add(ifs_new.to_multiset()).count(x) == ex.push(
            job,
        ).to_multiset().count(x) + ifs_new.to_multiset().count(x));
        assert(ex.to_multiset().add(ifs_old.to_multiset()).count(x) == ex.to_multiset().count(x)
            + ifs_old.to_multiset().count(x));
        assert(ifs_new.to_multiset().insert(job).count(x) == ifs_old.to_multiset().count(x));
        assert(ex.push(job).to_multiset().count(x) == ex.to_multiset().insert(job).count(x));
        assert((ex + ifs_old).to_multiset().count(x) == del.to_multiset().count(x));
    }
    assert((ex.push(job) + ifs_new).to_multiset() =~= del.to_multiset());
}

/// A change that touches only a worker's status leaves the account as it
/// was.
proof fn lemma_multiset_after_status_change(
    ex: Seq<u64>,
    del: Seq<u64>,
    ws: Seq<Worker>,
    i: int,
    w: Worker,
)
    requires
        (ex + worker::in_flight_jobs(ws)).to_multiset() == del.to_multiset(),
        0 <= i < ws.len(),
        w.current == ws[i].current,
    ensures
        (ex + worker::in_flight_jobs(ws.update(i, w))).to_multiset() == del.to_multiset(),
{
    broadcast use vstd::seq_lib::group_to_multiset_ensures;
    broadcast use vstd::multiset::group_multiset_axioms;
    broadcast use vstd::seq_lib::lemma_multiset_commutative;

    worker::lemma_in_flight_jobs_after_update(ws, i, w);
    let ifs_old = worker::in_flight_jobs(ws);
    let ifs_new = worker::in_flight_jobs(ws.update(i, w));
    assert(w.in_flight() =~= ws[i].in_flight());
    assert forall|x: u64| ifs_new.to_multiset().count(x) == ifs_old.to_multiset().count(x) by {
        assert(ifs_new.to_multiset().add(ws[i].in_flight().to_multiset()).count(x)
            == ifs_old.to_multiset().add(w.in_flight().to_multiset()).count(x));
    }
    assert(ifs_new.to_multiset() =~= ifs_old.to_multiset());
    assert((ex + ifs_new).to_multiset() =~= ex.to_multiset().add(ifs_new.to_multiset()));
    assert((ex + ifs_old).to_multiset() =~= ex.to_multiset().add(ifs_old.to_multiset()));
    assert forall|x: u64| (ex + ifs_new).to_multiset().count(x)
        == del.to_multiset().count(x) by {
        assert(ex.to_multiset().add(ifs_new.to_multiset()).count(x) == ex.to_multiset().count(x)
            + ifs_new.to_multiset().count(x));
        assert(ex.to_multiset().add(ifs_old.to_multiset()).count(x) == ex.to_multiset().count(x)
            + ifs_old.to_multiset().count(x));
        assert((ex + ifs_old).to_multiset().count(x) == del.to_multiset().count(x));
    }
    assert((ex + ifs_new).to_multiset() =~= del.to_multiset());
}

} // verus!
