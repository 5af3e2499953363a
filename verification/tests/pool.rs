use worker_pool::errors::{PoolClosed, PoolCreationError};
use worker_pool::pool::ThreadPool;
use worker_pool::queue::Dequeued;
use worker_pool::worker::WorkerState;

fn pool_of(size: usize) -> ThreadPool {
    match ThreadPool::new(size) {
        Ok(p) => p,
        Err(_) => panic!("pool of size {} refused", size),
    }
}

/// Drives every worker until it has exited, in ascending identity order,
/// finishing each job as soon as it is taken.
fn drain(pool: &mut ThreadPool) {
    let n = pool.worker_count();
    for w in 0..n {
        while !pool.worker_exited(w) {
            match pool.worker_state(w) {
                WorkerState::Idle => {
                    pool.worker_poll(w);
                }
                WorkerState::Running(_) => pool.worker_finish(w),
                WorkerState::Exited => {}
            }
        }
    }
}

#[test]
fn construction_spawns_n_idle_workers() {
    for n in [1usize, 2, 4, 7] {
        let pool = pool_of(n);
        assert_eq!(pool.worker_count(), n);
        for w in 0..n {
            assert_eq!(pool.worker_state(w), WorkerState::Idle);
        }
        assert_eq!(pool.pending_count(), 0);
        assert_eq!(pool.completed_jobs().len(), 0);
        assert!(pool.is_open());
        assert!(!pool.is_shut_down());
    }
}

#[test]
fn zero_size_is_invalid_configuration() {
    match ThreadPool::new(0) {
        Ok(_) => panic!("a pool of size zero must be refused"),
        Err(e) => assert_eq!(e, PoolCreationError),
    }
}

#[test]
fn pool_creation_error_value() {
    assert_eq!(PoolCreationError::new(), PoolCreationError);
}

#[test]
fn k_jobs_then_shutdown_run_exactly_once() {
    for (n, k) in [(1usize, 0u64), (1, 5), (2, 5), (3, 8), (4, 1)] {
        let mut pool = pool_of(n);
        for id in 1..=k {
            assert!(pool.execute(id).is_ok());
        }
        pool.shutdown();
        let mut log = pool.completed_jobs().clone();
        assert_eq!(log.len() as u64, k);
        log.sort();
        let expected: Vec<u64> = (1..=k).collect();
        assert_eq!(log, expected);
    }
}

#[test]
fn single_worker_runs_jobs_in_submission_order() {
    let mut pool = pool_of(1);
    for id in [10u64, 20, 30, 40] {
        assert!(pool.execute(id).is_ok());
    }
    pool.shutdown();
    assert_eq!(pool.completed_jobs(), &vec![10u64, 20, 30, 40]);
}

#[test]
fn single_worker_order_holds_step_by_step() {
    let mut pool = pool_of(1);
    assert!(pool.execute(3).is_ok());
    assert!(pool.execute(1).is_ok());
    assert_eq!(pool.worker_poll(0), Dequeued::Job(3));
    pool.worker_finish(0);
    assert!(pool.execute(2).is_ok());
    assert_eq!(pool.worker_poll(0), Dequeued::Job(1));
    pool.worker_finish(0);
    assert_eq!(pool.worker_poll(0), Dequeued::Job(2));
    pool.worker_finish(0);
    assert_eq!(pool.completed_jobs(), &vec![3u64, 1, 2]);
}

#[test]
fn completion_order_may_differ_but_sets_agree() {
    let mut pool = pool_of(2);
    for id in [1u64, 2, 3] {
        assert!(pool.execute(id).is_ok());
    }
    // Worker 0 takes job 1, worker 1 takes job 2, and job 2 finishes
    // first: completions land out of submission order.
    assert_eq!(pool.worker_poll(0), Dequeued::Job(1));
    assert_eq!(pool.worker_poll(1), Dequeued::Job(2));
    pool.worker_finish(1);
    pool.worker_finish(0);
    assert_eq!(pool.worker_poll(1), Dequeued::Job(3));
    pool.worker_finish(1);
    pool.shutdown();
    assert_eq!(pool.completed_jobs(), &vec![2u64, 1, 3]);
    let mut sorted = pool.completed_jobs().clone();
    sorted.sort();
    assert_eq!(sorted, vec![1u64, 2, 3]);
}

#[test]
fn duplicate_identifiers_run_once_per_submission() {
    let mut pool = pool_of(1);
    assert!(pool.execute(5).is_ok());
    assert!(pool.execute(5).is_ok());
    pool.shutdown();
    assert_eq!(pool.completed_jobs(), &vec![5u64, 5]);
}

#[test]
fn shutdown_twice_is_a_no_op() {
    let mut pool = pool_of(3);
    for id in [7u64, 8, 9] {
        assert!(pool.execute(id).is_ok());
    }
    pool.shutdown();
    let log_after_first = pool.completed_jobs().clone();
    let states_after_first: Vec<WorkerState> =
        (0..pool.worker_count()).map(|w| pool.worker_state(w)).collect();
    pool.shutdown();
    assert_eq!(pool.completed_jobs(), &log_after_first);
    let states_after_second: Vec<WorkerState> =
        (0..pool.worker_count()).map(|w| pool.worker_state(w)).collect();
    assert_eq!(states_after_second, states_after_first);
    assert!(pool.is_shut_down());
    assert_eq!(pool.pending_count(), 0);
}

#[test]
fn execute_after_shutdown_is_refused_without_side_effects() {
    let mut pool = pool_of(2);
    assert!(pool.execute(1).is_ok());
    pool.shutdown();
    let log_before = pool.completed_jobs().clone();
    assert_eq!(pool.execute(2), Err(PoolClosed));
    assert_eq!(pool.completed_jobs(), &log_before);
    assert_eq!(pool.pending_count(), 0);
    pool.shutdown();
    assert_eq!(pool.completed_jobs(), &log_before);
}

#[test]
fn idle_worker_on_open_empty_queue_keeps_waiting() {
    let mut pool = pool_of(2);
    assert_eq!(pool.worker_poll(0), Dequeued::Pending);
    assert_eq!(pool.worker_state(0), WorkerState::Idle);
    assert!(pool.is_open());
}

#[test]
fn workers_exit_only_after_draining() {
    let mut pool = pool_of(2);
    assert!(pool.execute(11).is_ok());
    assert!(pool.execute(12).is_ok());
    pool.shutdown();
    for w in 0..pool.worker_count() {
        assert_eq!(pool.worker_state(w), WorkerState::Exited);
    }
    assert_eq!(pool.pending_count(), 0);
    assert_eq!(pool.completed_jobs().len(), 2);
}

#[test]
fn eight_jobs_on_four_workers_log_all_ids() {
    let mut pool = pool_of(4);
    for id in 1..=8u64 {
        assert!(pool.execute(id).is_ok());
    }
    // Interleave the four workers by hand before the final drain, so the
    // log is not simply in submission order.
    assert_eq!(pool.worker_poll(0), Dequeued::Job(1));
    assert_eq!(pool.worker_poll(1), Dequeued::Job(2));
    assert_eq!(pool.worker_poll(2), Dequeued::Job(3));
    assert_eq!(pool.worker_poll(3), Dequeued::Job(4));
    pool.worker_finish(2);
    pool.worker_finish(0);
    pool.worker_finish(3);
    pool.worker_finish(1);
    pool.shutdown();
    let log = pool.completed_jobs();
    assert_eq!(log.len(), 8);
    let mut sorted = log.clone();
    sorted.sort();
    assert_eq!(sorted, (1..=8u64).collect::<Vec<u64>>());
}

#[test]
fn ten_increments_are_all_counted() {
    for n in [1usize, 2, 5] {
        let mut pool = pool_of(n);
        for id in 0..10u64 {
            assert!(pool.execute(id).is_ok());
        }
        pool.shutdown();
        // Each executed job increments the shared counter once.
        let mut counter: u64 = 0;
        for _ in pool.completed_jobs() {
            counter += 1;
        }
        assert_eq!(counter, 10);
    }
}

#[test]
fn manual_drain_matches_shutdown_outcome() {
    let mut pool = pool_of(3);
    for id in [4u64, 5, 6, 7] {
        assert!(pool.execute(id).is_ok());
    }
    // One worker takes a head start; shutdown then drains the rest, and a
    // further manual drain finds nothing left to do.
    assert_eq!(pool.worker_poll(1), Dequeued::Job(4));
    pool.worker_finish(1);
    pool.shutdown();
    drain(&mut pool);
    let mut sorted = pool.completed_jobs().clone();
    sorted.sort();
    assert_eq!(sorted, vec![4u64, 5, 6, 7]);
}
