use thpool::pool::{PoolError, ThreadPool, WorkerState};

fn count_of(v: &[u64], x: u64) -> usize {
    v.iter().filter(|&&y| y == x).count()
}

#[test]
fn pool_of_size_n_has_workers_one_to_n() {
    for n in [1usize, 2, 4, 7, 32] {
        let pool = ThreadPool::<u64>::construct(n).unwrap();
        assert_eq!(pool.num_workers(), n);
        for i in 0..n {
            let w = pool.worker_at(i);
            assert_eq!(w.id, i + 1);
            assert!(matches!(w.state, WorkerState::Running));
        }
        assert_eq!(pool.live_workers(), n);
        assert_eq!(pool.queued_len(), 0);
        assert!(!pool.is_torn_down());
    }
}

#[test]
fn pool_of_size_zero_is_refused() {
    let r = ThreadPool::<u64>::construct(0);
    match r {
        Ok(_) => panic!("a pool of size zero must be refused"),
        Err(e) => assert_eq!(e, PoolError::SizeZero),
    }
}

#[test]
fn every_submission_runs_exactly_once() {
    let mut pool = ThreadPool::<u64>::construct(3).unwrap();
    for job in 0..10u64 {
        pool.execute(job);
    }
    // A few jobs are picked up while the pool lives, by different workers;
    // the rest drain at teardown.
    pool.run_next(0);
    pool.run_next(2);
    pool.run_next(1);
    let crashed = pool.teardown();
    assert!(crashed.is_empty());
    let done = pool.completed_jobs();
    assert_eq!(done.len(), 10);
    for job in 0..10u64 {
        assert_eq!(count_of(done, job), 1);
    }
    assert!(pool.failed_jobs().is_empty());
    assert!(pool.discarded_jobs().is_empty());
}

#[test]
fn both_labels_appear_exactly_once() {
    // Two submissions, one label each: after teardown both labels are in
    // the log exactly once.  (Their relative order is the model's, not a
    // guarantee of the concurrent pool.)
    let mut pool = ThreadPool::<u64>::construct(2).unwrap();
    pool.execute(11);
    pool.execute(22);
    pool.teardown();
    let done = pool.completed_jobs();
    assert_eq!(done.len(), 2);
    assert_eq!(count_of(done, 11), 1);
    assert_eq!(count_of(done, 22), 1);
}

#[test]
fn teardown_stops_every_worker() {
    let mut pool = ThreadPool::<u64>::construct(3).unwrap();
    pool.execute(1);
    let crashed = pool.teardown();
    assert!(pool.is_torn_down());
    assert_eq!(pool.live_workers(), 0);
    assert_eq!(pool.queued_len(), 0);
    for i in 0..3 {
        assert!(matches!(pool.worker_at(i).state, WorkerState::Exited));
    }
    assert!(crashed.is_empty());
}

#[test]
fn failed_task_leaves_the_rest_serving() {
    let mut pool = ThreadPool::<u64>::construct(3).unwrap();
    for job in 1..=5u64 {
        pool.execute(job);
    }
    // The first job fails on the worker with id 2: that worker is gone for
    // good and the pool's capacity is down to two.
    pool.crash_next(1);
    assert_eq!(pool.live_workers(), 2);
    assert!(matches!(pool.worker_at(1).state, WorkerState::Crashed));
    // The survivors keep completing submissions.
    pool.run_next(0);
    pool.run_next(2);
    pool.execute(6);
    let crashed = pool.teardown();
    let done = pool.completed_jobs();
    assert_eq!(done.len(), 5);
    for job in [2u64, 3, 4, 5, 6] {
        assert_eq!(count_of(done, job), 1);
    }
    assert_eq!(pool.failed_jobs().as_slice(), &[1]);
    assert!(pool.discarded_jobs().is_empty());
    // The join report names exactly the crashed worker, by id.
    assert_eq!(crashed.as_slice(), &[2]);
}

#[test]
fn all_workers_crashed_discards_pending_work() {
    let mut pool = ThreadPool::<u64>::construct(2).unwrap();
    for job in 1..=4u64 {
        pool.execute(job);
    }
    pool.crash_next(0);
    pool.crash_next(1);
    assert_eq!(pool.live_workers(), 0);
    let crashed = pool.teardown();
    assert_eq!(crashed.as_slice(), &[1, 2]);
    assert!(pool.completed_jobs().is_empty());
    assert_eq!(pool.failed_jobs().as_slice(), &[1, 2]);
    assert_eq!(pool.discarded_jobs().as_slice(), &[3, 4]);
}

#[test]
fn stress_many_trivial_jobs_complete() {
    let mut pool = ThreadPool::<u64>::construct(4).unwrap();
    for job in 0..10_000u64 {
        pool.execute(job);
    }
    // Workers take turns on part of the queue; teardown drains the rest.
    for k in 0..1_000usize {
        pool.run_next(k % 4);
    }
    pool.teardown();
    assert_eq!(pool.completed_jobs().len(), 10_000);
    assert!(pool.failed_jobs().is_empty());
    assert!(pool.discarded_jobs().is_empty());
}

#[test]
fn smallest_pool_works() {
    let mut pool = ThreadPool::<u64>::construct(1).unwrap();
    pool.execute(9);
    pool.run_next(0);
    pool.teardown();
    assert_eq!(pool.completed_jobs().as_slice(), &[9]);
}
