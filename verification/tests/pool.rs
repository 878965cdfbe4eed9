use thread_pool::DequeueSignal;
use thread_pool::PoolError;
use thread_pool::PoolPhase;
use thread_pool::ThreadPool;
use thread_pool::worker::ExitCause;
use thread_pool::worker::Worker;
use thread_pool::worker::WorkerAction;
use thread_pool::worker::WorkerEvent;
use thread_pool::worker::WorkerStatus;
use thread_pool::worker::loop_action;

#[test]
fn zero_size_always_fails_with_invalid_size() {
    assert_eq!(ThreadPool::new(0).map(|_| ()), Err(PoolError::InvalidSize));
}

#[test]
fn pool_of_each_size_has_that_many_live_workers() {
    for size in 1..=5usize {
        let pool = ThreadPool::new(size).unwrap();
        assert_eq!(pool.workers.len(), size);
        assert_eq!(pool.live_worker_count(), size);
        assert_eq!(pool.phase, PoolPhase::Active);
        assert_eq!(pool.pending.len(), 0);
    }
}

#[test]
fn refused_thread_fails_construction_with_spawn_error() {
    assert_eq!(
        ThreadPool::new_with_spawns(3, 2).map(|_| ()),
        Err(PoolError::SpawnError)
    );
    assert_eq!(
        ThreadPool::new_with_spawns(0, 5).map(|_| ()),
        Err(PoolError::InvalidSize)
    );
    let pool = ThreadPool::new_with_spawns(2, 2).unwrap();
    assert_eq!(pool.live_worker_count(), 2);
}

#[test]
fn worker_record_reflects_spawn_outcome() {
    let w = Worker::new(3, true).unwrap();
    assert_eq!(w.id, 3);
    assert_eq!(w.status, WorkerStatus::Running);
    assert_eq!(w.current, None);
    assert!(matches!(Worker::new(0, false), Err(PoolError::SpawnError)));
}

#[test]
fn loop_decision_runs_jobs_and_exits_on_closure_or_poison() {
    assert_eq!(loop_action(WorkerEvent::JobReceived), WorkerAction::RunJob);
    assert_eq!(
        loop_action(WorkerEvent::QueueClosed),
        WorkerAction::ExitLoop(ExitCause::Exhausted)
    );
    assert_eq!(
        loop_action(WorkerEvent::LockPoisoned),
        WorkerAction::ExitLoop(ExitCause::LockFailure)
    );
}

#[test]
fn single_worker_executes_in_submission_order() {
    let mut pool = ThreadPool::new(1).unwrap();
    assert_eq!(pool.execute(10), Ok(()));
    assert_eq!(pool.execute(20), Ok(()));
    assert_eq!(pool.execute(30), Ok(()));
    pool.begin_shutdown();
    assert_eq!(pool.try_dequeue(0), DequeueSignal::Delivered(10));
    pool.complete_job(0);
    assert_eq!(pool.try_dequeue(0), DequeueSignal::Delivered(20));
    pool.complete_job(0);
    assert_eq!(pool.try_dequeue(0), DequeueSignal::Delivered(30));
    pool.complete_job(0);
    assert_eq!(pool.try_dequeue(0), DequeueSignal::Closed);
    assert_eq!(pool.executed, vec![10, 20, 30]);
    pool.finish_teardown();
    assert_eq!(pool.phase, PoolPhase::Stopped);
}

#[test]
fn two_workers_run_three_counter_jobs_to_three() {
    // Pool of size 2; jobs A, B, C each stand for "add 1 to a shared counter".
    let mut pool = ThreadPool::new(2).unwrap();
    assert_eq!(pool.execute(1), Ok(()));
    assert_eq!(pool.execute(1), Ok(()));
    assert_eq!(pool.execute(1), Ok(()));
    pool.begin_shutdown();
    // The two workers interleave; completions land in either order.
    assert_eq!(pool.try_dequeue(0), DequeueSignal::Delivered(1));
    assert_eq!(pool.try_dequeue(1), DequeueSignal::Delivered(1));
    pool.complete_job(1);
    pool.complete_job(0);
    assert_eq!(pool.try_dequeue(1), DequeueSignal::Delivered(1));
    pool.complete_job(1);
    assert_eq!(pool.try_dequeue(0), DequeueSignal::Closed);
    assert_eq!(pool.try_dequeue(1), DequeueSignal::Closed);
    // Teardown can only conclude now, with every increment observed.
    pool.finish_teardown();
    let counter: u64 = pool.executed.iter().sum();
    assert_eq!(counter, 3);
    assert_eq!(pool.executed.len(), 3);
    assert_eq!(pool.delivered.len(), 3);
    assert_eq!(pool.pending.len(), 0);
    assert_eq!(pool.phase, PoolPhase::Stopped);
}

#[test]
fn every_job_is_queued_in_hand_or_finished_exactly_once() {
    let mut pool = ThreadPool::new(2).unwrap();
    for job in [10u64, 20, 30] {
        assert_eq!(pool.execute(job), Ok(()));
    }
    // Mid-drain: one job finished, one in a worker's hands, one still queued.
    assert_eq!(pool.try_dequeue(0), DequeueSignal::Delivered(10));
    assert_eq!(pool.try_dequeue(1), DequeueSignal::Delivered(20));
    pool.complete_job(0);
    let in_hand = pool
        .workers
        .iter()
        .filter(|w| w.current.is_some())
        .count();
    assert_eq!(pool.executed, vec![10]);
    assert_eq!(in_hand, 1);
    assert_eq!(pool.pending.iter().copied().collect::<Vec<u64>>(), vec![30]);
    assert_eq!(pool.executed.len() + in_hand + pool.pending.len(), 3);
    // Delivery so far happened in submission order.
    assert_eq!(pool.delivered, vec![10, 20]);
}

#[test]
fn submitting_after_shutdown_fails_with_channel_closed() {
    let mut pool = ThreadPool::new(2).unwrap();
    pool.begin_shutdown();
    assert_eq!(pool.execute(5), Err(PoolError::ChannelClosed));
    assert_eq!(pool.pending.len(), 0);
    // Retiring the handle a second time is a no-op, not a new state.
    pool.begin_shutdown();
    assert_eq!(pool.phase, PoolPhase::Draining);
    assert_eq!(pool.execute(6), Err(PoolError::ChannelClosed));
}

#[test]
fn teardown_with_enqueued_jobs_drains_them_all_first() {
    let mut pool = ThreadPool::new(1).unwrap();
    for job in [7u64, 8, 9, 11] {
        assert_eq!(pool.execute(job), Ok(()));
    }
    pool.begin_shutdown();
    assert_eq!(pool.pending.len(), 4);
    let mut drained: usize = 0;
    loop {
        match pool.try_dequeue(0) {
            DequeueSignal::Delivered(_) => {
                pool.complete_job(0);
                drained += 1;
            }
            DequeueSignal::Closed => break,
            DequeueSignal::Empty => unreachable!(),
        }
    }
    assert_eq!(drained, 4);
    assert_eq!(pool.executed, vec![7, 8, 9, 11]);
    assert_eq!(pool.pending.len(), 0);
    pool.finish_teardown();
    assert_eq!(pool.phase, PoolPhase::Stopped);
}

#[test]
fn aborting_job_kills_sole_worker_and_later_jobs_never_run() {
    let mut pool = ThreadPool::new(1).unwrap();
    assert_eq!(pool.execute(99), Ok(()));
    assert_eq!(pool.try_dequeue(0), DequeueSignal::Delivered(99));
    pool.abort_job(0);
    assert_eq!(
        pool.workers[0].status,
        WorkerStatus::Exited(ExitCause::JobAbort)
    );
    assert_eq!(pool.live_worker_count(), 0);
    // Job D is accepted while the handle is present, but no worker is left
    // to pick it up: capacity has degraded permanently for this pool.
    assert_eq!(pool.execute(7), Ok(()));
    assert_eq!(pool.pending.iter().copied().collect::<Vec<u64>>(), vec![7]);
    assert!(!pool.executed.contains(&7));
    pool.begin_shutdown();
    pool.finish_teardown();
    assert_eq!(pool.phase, PoolPhase::Stopped);
    assert_eq!(pool.executed, vec![99]);
    assert_eq!(pool.pending.len(), 1);
}

#[test]
fn immediate_teardown_of_idle_pool_joins_all_three_workers() {
    let mut pool = ThreadPool::new(3).unwrap();
    pool.begin_shutdown();
    assert_eq!(pool.try_dequeue(0), DequeueSignal::Closed);
    assert_eq!(pool.try_dequeue(1), DequeueSignal::Closed);
    assert_eq!(pool.try_dequeue(2), DequeueSignal::Closed);
    assert_eq!(pool.live_worker_count(), 0);
    pool.finish_teardown();
    assert_eq!(pool.phase, PoolPhase::Stopped);
    assert_eq!(pool.executed.len(), 0);
    assert_eq!(pool.delivered.len(), 0);
}

#[test]
fn poisoned_lock_retires_one_worker_and_the_other_carries_on() {
    let mut pool = ThreadPool::new(2).unwrap();
    pool.observe_poisoned(0);
    assert_eq!(
        pool.workers[0].status,
        WorkerStatus::Exited(ExitCause::LockFailure)
    );
    assert_eq!(pool.live_worker_count(), 1);
    assert_eq!(pool.execute(5), Ok(()));
    assert_eq!(pool.try_dequeue(1), DequeueSignal::Delivered(5));
    pool.complete_job(1);
    pool.begin_shutdown();
    assert_eq!(pool.try_dequeue(1), DequeueSignal::Closed);
    pool.finish_teardown();
    assert_eq!(pool.executed, vec![5]);
    assert_eq!(pool.phase, PoolPhase::Stopped);
}

#[test]
fn empty_queue_on_active_pool_keeps_worker_waiting() {
    let mut pool = ThreadPool::new(1).unwrap();
    assert_eq!(pool.try_dequeue(0), DequeueSignal::Empty);
    assert_eq!(pool.live_worker_count(), 1);
    assert_eq!(pool.phase, PoolPhase::Active);
    assert_eq!(pool.execute(4), Ok(()));
    assert_eq!(pool.try_dequeue(0), DequeueSignal::Delivered(4));
}
