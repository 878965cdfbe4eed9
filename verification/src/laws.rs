//! The pool-wide guarantees, stated over the model and proved once for every
//! well-formed pool state.

use vstd::prelude::*;

use crate::ThreadPool;
use crate::worker::ExitCause;
use crate::worker::WorkerStatus;
use crate::worker::in_flight_jobs;
use crate::worker::lemma_in_flight_jobs_empty;

verus! {

/// Jobs are handed to workers in submission order: at every well-formed state
/// the delivered sequence is exactly the first part of the submitted
/// sequence. In particular the job at submission position `i` is handed out
/// at hand-off position `i`, so no job is ever delivered twice or out of
/// order.
pub proof fn lemma_delivery_is_fifo(p: ThreadPool)
    requires
        p.well_formed(),
    ensures
        p.delivered@.len() <= p.submitted().len(),
        p.delivered@ == p.submitted().take(p.delivered@.len() as int),
{
    assert(p.delivered@ =~= (p.delivered@ + p.pending@).take(p.delivered@.len() as int));
}

/// Every submitted job is in exactly one place: still queued, in exactly one
/// worker's hands, or finished. The jobs finished and in hand together are,
/// as a multiset, exactly the jobs handed out, and the three counts add up to
/// the number of submissions: no job is ever duplicated or lost on the way.
pub proof fn lemma_each_job_counted_once(p: ThreadPool)
    requires
        p.well_formed(),
    ensures
        (p.executed@ + in_flight_jobs(p.workers@)).to_multiset() == p.delivered@.to_multiset(),
        p.submitted().len() == p.executed@.len() + in_flight_jobs(p.workers@).len()
            + p.pending@.len(),
{
    broadcast use vstd::seq_lib::group_to_multiset_ensures;

    assert((p.executed@ + in_flight_jobs(p.workers@)).to_multiset().len()
        == p.delivered@.to_multiset().len());
}

/// With a single worker, executions happen in submission order: at every
/// well-formed state the executed sequence is exactly the first part of the
/// submitted sequence, and once the sole worker has exited on queue closure
/// it is the whole of it - each job ran exactly once, in the order it was
/// submitted.
pub proof fn lemma_single_worker_executes_in_order(p: ThreadPool)
    requires
        p.well_formed(),
        p.size() == 1,
    ensures
        p.executed@.len() <= p.submitted().len(),
        p.executed@ == p.submitted().take(p.executed@.len() as int),
        p.workers@[0].status == WorkerStatus::Exited(ExitCause::Exhausted) ==> p.executed@
            == p.submitted(),
{
    assert(p.executed@ =~= p.submitted().take(p.executed@.len() as int));
    if p.workers@[0].status == WorkerStatus::Exited(ExitCause::Exhausted) {
        assert(p.drained_observed());
        assert(p.executed@ =~= p.submitted());
    }
}

/// Teardown drains the queue: when every worker has exited after observing
/// queue closure, no job is left queued or in hand, every job handed out was
/// handed out in submission order, and the count of executions equals the
/// count of submissions - nothing submitted before shutdown is left
/// unexecuted.
pub proof fn lemma_teardown_executes_all(p: ThreadPool)
    requires
        p.well_formed(),
        forall|i: int|
            0 <= i < p.size() ==> (#[trigger] p.workers@[i]).status == WorkerStatus::Exited(
                ExitCause::Exhausted,
            ),
    ensures
        p.pending@.len() == 0,
        p.delivered@ == p.submitted(),
        p.executed@.to_multiset() == p.submitted().to_multiset(),
        p.executed@.len() == p.submitted().len(),
{
    broadcast use vstd::seq_lib::group_to_multiset_ensures;

    assert(p.workers@[0].status == WorkerStatus::Exited(ExitCause::Exhausted));
    assert(p.drained_observed());
    assert(forall|i: int| 0 <= i < p.workers@.len() ==> (#[trigger] p.workers@[i]).current is None);
    lemma_in_flight_jobs_empty(p.workers@);
    assert(p.executed@ + in_flight_jobs(p.workers@) =~= p.executed@);
    assert(p.delivered@ =~= p.submitted());
    assert(p.executed@.to_multiset().len() == p.executed@.len());
    assert(p.delivered@.to_multiset().len() == p.delivered@.len());
}

} // verus!
