//! One worker of the pool: its identity, its loop state, and the decision its
//! receive-execute loop makes on each pass.

use vstd::prelude::*;

use crate::PoolError;

verus! {

/// Why a worker's receive-execute loop came to an end. No cause ever leads
/// back into the loop: a worker that exits is gone for the pool's lifetime.
#[derive(Clone, Copy, Debug, PartialEq, Eq, Structural)]
pub enum ExitCause {
    /// The queue reported closure: the sending handle was retired and every
    /// queued job had been drained.
    Exhausted,
    /// The shared receiver's lock was poisoned by a peer that terminated
    /// abnormally while holding it.
    LockFailure,
    /// The job this worker was running aborted abnormally, taking the
    /// worker's thread with it.
    JobAbort,
}

/// A worker is either running its receive-execute loop or has left it.
#[derive(Clone, Copy, Debug, PartialEq, Eq, Structural)]
pub enum WorkerStatus {
    /// The loop is running: the worker is dequeuing, executing, or waiting.
    Running,
    /// The loop has ended, for the recorded cause.
    Exited(ExitCause),
}

/// What a worker observes on one pass through its loop, at the shared
/// receiver: the lock attempt and, if that succeeds, the receive attempt.
#[derive(Clone, Copy, Debug, PartialEq, Eq, Structural)]
pub enum WorkerEvent {
    /// The lock was acquired and the queue handed over a job.
    JobReceived,
    /// The lock was acquired but the queue is closed and drained.
    QueueClosed,
    /// The lock could not be acquired because it is poisoned.
    LockPoisoned,
}

/// What the worker's loop does next in response to an observation.
#[derive(Clone, Copy, Debug, PartialEq, Eq, Structural)]
pub enum WorkerAction {
    /// Run the received job, outside the lock, then make another pass.
    RunJob,
    /// Leave the loop permanently, for the given cause.
    ExitLoop(ExitCause),
}

/// One worker: a small integer identity unique within its pool, the state of
/// its loop, and the job it is executing right now, if any.
#[derive(Clone, Copy, Debug)]
pub struct Worker {
    /// This worker's index within the pool.
    pub id: usize,
    /// Whether the receive-execute loop is still running.
    pub status: WorkerStatus,
    /// The job this worker has dequeued and not yet finished running.
    pub current: Option<u64>,
}

impl Worker {
    /// Still in the loop, with no job in hand.
    pub open spec fn idle(self) -> bool {
        self.status is Running && self.current is None
    }

    /// The job in this worker's hands, as a sequence of length zero or one.
    pub open spec fn in_flight(self) -> Seq<u64> {
        match self.current {
            Some(job) => seq![job],
            None => Seq::empty(),
        }
    }

    /// Creates the record for one worker. `spawned` reports whether the
    /// execution substrate granted the worker its thread; when it did not,
    /// construction of the whole pool fails and no worker record exists.
    pub fn new(id: usize, spawned: bool) -> (r: Result<Worker, PoolError>)
        ensures
            spawned ==> r == Ok::<Worker, PoolError>(
                Worker { id, status: WorkerStatus::Running, current: None },
            ),
            !spawned ==> r == Err::<Worker, PoolError>(PoolError::SpawnError),
    {
        if spawned {
            Ok(Worker { id, status: WorkerStatus::Running, current: None })
        } else {
            Err(PoolError::SpawnError)
        }
    }
}

/// The decision a worker's loop makes on each pass: a received job is run
/// outside the lock; a closed queue ends the loop normally; a poisoned lock
/// ends it abnormally. No observation leads anywhere else.
pub fn loop_action(event: WorkerEvent) -> (action: WorkerAction)
    ensures
        action == (match event {
            WorkerEvent::JobReceived => WorkerAction::RunJob,
            WorkerEvent::QueueClosed => WorkerAction::ExitLoop(ExitCause::Exhausted),
            WorkerEvent::LockPoisoned => WorkerAction::ExitLoop(ExitCause::LockFailure),
        }),
{
    match event {
        WorkerEvent::JobReceived => WorkerAction::RunJob,
        WorkerEvent::QueueClosed => WorkerAction::ExitLoop(ExitCause::Exhausted),
        WorkerEvent::LockPoisoned => WorkerAction::ExitLoop(ExitCause::LockFailure),
    }
}

/// How many of the workers are still running their loop.
pub open spec fn running_count(ws: Seq<Worker>) -> nat
    decreases ws.len(),
{
    if ws.len() == 0 {
        0
    } else {
        running_count(ws.drop_last()) + (if ws.last().status is Running {
            1nat
        } else {
            0nat
        })
    }
}

/// The jobs in workers' hands, one entry per held job.
pub open spec fn in_flight_jobs(ws: Seq<Worker>) -> Seq<u64>
    decreases ws.len(),
{
    if ws.len() == 0 {
        Seq::empty()
    } else {
        in_flight_jobs(ws.drop_last()) + ws.last().in_flight()
    }
}

/// Replacing worker `i` by `w` changes the jobs in workers' hands by exactly
/// the difference between the two workers' own hands.
pub proof fn lemma_in_flight_jobs_after_update(ws: Seq<Worker>, i: int, w: Worker)
    requires
        0 <= i < ws.len(),
    ensures
        in_flight_jobs(ws.update(i, w)).to_multiset().add(ws[i].in_flight().to_multiset())
            =~= in_flight_jobs(ws).to_multiset().add(w.in_flight().to_multiset()),
    decreases ws.len(),
{
    broadcast use vstd::seq_lib::group_to_multiset_ensures;
    broadcast use vstd::multiset::group_multiset_axioms;
    broadcast use vstd::seq_lib::lemma_multiset_commutative;

    let dl = ws.drop_last();
    if i == ws.len() - 1 {
        assert(ws.update(i, w).drop_last() =~= dl);
        assert(in_flight_jobs(ws.update(i, w)) == in_flight_jobs(dl) + w.in_flight());
        assert(in_flight_jobs(ws) == in_flight_jobs(dl) + ws[i].in_flight());
        assert((in_flight_jobs(dl) + w.in_flight()).to_multiset()
            =~= in_flight_jobs(dl).to_multiset().add(w.in_flight().to_multiset()));
        assert((in_flight_jobs(dl) + ws[i].in_flight()).to_multiset()
            =~= in_flight_jobs(dl).to_multiset().add(ws[i].in_flight().to_multiset()));
        assert forall|x: u64|
            in_flight_jobs(ws.update(i, w)).to_multiset().add(
                ws[i].in_flight().to_multiset(),
            ).count(x) == in_flight_jobs(ws).to_multiset().add(
                w.in_flight().to_multiset(),
            ).count(x) by {
            assert(in_flight_jobs(dl).to_multiset().add(w.in_flight().to_multiset()).count(x)
                == in_flight_jobs(dl).to_multiset().count(x) + w.in_flight().to_multiset().count(
                x,
            ));
            assert(in_flight_jobs(dl).to_multiset().add(ws[i].in_flight().to_multiset()).count(x)
                == in_flight_jobs(dl).to_multiset().count(x)
                + ws[i].in_flight().to_multiset().count(x));
        }
    } else {
        assert(ws.update(i, w).drop_last() =~= dl.update(i, w));
        lemma_in_flight_jobs_after_update(dl, i, w);
        assert(dl[i] == ws[i]);
        assert(ws.update(i, w).last() == ws.last());
        assert(in_flight_jobs(ws.update(i, w)) == in_flight_jobs(dl.update(i, w))
            + ws.last().in_flight());
        assert(in_flight_jobs(ws) == in_flight_jobs(dl) + ws.last().in_flight());
        assert((in_flight_jobs(dl.update(i, w)) + ws.last().in_flight()).to_multiset()
            =~= in_flight_jobs(dl.update(i, w)).to_multiset().add(
            ws.last().in_flight().to_multiset(),
        ));
        assert((in_flight_jobs(dl) + ws.last().in_flight()).to_multiset()
            =~= in_flight_jobs(dl).to_multiset().add(ws.last().in_flight().to_multiset()));
        assert forall|x: u64|
            in_flight_jobs(ws.update(i, w)).to_multiset().add(
                ws[i].in_flight().to_multiset(),
            ).count(x) == in_flight_jobs(ws).to_multiset().add(
                w.in_flight().to_multiset(),
            ).count(x) by {
            assert(in_flight_jobs(dl.update(i, w)).to_multiset().add(
                dl[i].in_flight().to_multiset(),
            ).count(x) == in_flight_jobs(dl).to_multiset().add(
                w.in_flight().to_multiset(),
            ).count(x));
            assert(in_flight_jobs(dl.update(i, w)).to_multiset().add(
                ws.last().in_flight().to_multiset(),
            ).count(x) == in_flight_jobs(dl.update(i, w)).to_multiset().count(x)
                + ws.last().in_flight().to_multiset().count(x));
            assert(in_flight_jobs(dl).to_multiset().add(
                ws.last().in_flight().to_multiset(),
            ).count(x) == in_flight_jobs(dl).to_multiset().count(x)
                + ws.last().in_flight().to_multiset().count(x));
        }
    }
}

/// Workers that all stand without a job hold nothing in flight.
pub proof fn lemma_in_flight_jobs_empty(ws: Seq<Worker>)
    requires
        forall|i: int| 0 <= i < ws.len() ==> (#[trigger] ws[i]).current is None,
    ensures
        in_flight_jobs(ws) == Seq::<u64>::empty(),
    decreases ws.len(),
{
    if ws.len() > 0 {
        assert(forall|i: int|
            0 <= i < ws.drop_last().len() ==> (#[trigger] ws.drop_last()[i]).current is None);
        lemma_in_flight_jobs_empty(ws.drop_last());
        assert(in_flight_jobs(ws) =~= Seq::<u64>::empty());
    }
}

} // verus!
