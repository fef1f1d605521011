use multithreading::pool::{join_report, next_step, Message, PoolCore, PoolError, PoolState, WorkerStep};
use std::cell::Cell;
use std::rc::Rc;

type Job = Box<dyn FnOnce()>;

fn counting_job(counter: &Rc<Cell<u64>>) -> Job {
    let c = Rc::clone(counter);
    Box::new(move || c.set(c.get() + 1))
}

/// Plays the workers one message at a time until every worker has left;
/// returns how many workers left.
fn drain(pool: &mut PoolCore<Job>) -> usize {
    let mut exited = 0;
    while exited < pool.size() {
        match pool.take() {
            Some(msg) => match next_step(msg) {
                WorkerStep::Run(job) => job(),
                WorkerStep::Exit => exited += 1,
            },
            None => break,
        }
    }
    exited
}

fn run_pool(size: usize, jobs: u64) -> u64 {
    let counter = Rc::new(Cell::new(0));
    let mut pool: PoolCore<Job> = PoolCore::create(size).unwrap();
    for _ in 0..jobs {
        assert_eq!(pool.submit(counting_job(&counter)), Ok(()));
    }
    assert_eq!(pool.request_stop(), size);
    assert_eq!(drain(&mut pool), size);
    assert_eq!(pool.pending_len(), 0);
    assert_eq!(pool.record_joins(&vec![true; size]), Ok(()));
    assert_eq!(pool.state(), PoolState::Terminated);
    counter.get()
}

#[test]
fn four_workers_hundred_jobs() {
    assert_eq!(run_pool(4, 100), 100);
}

#[test]
fn each_job_runs_once_for_any_size() {
    for size in 1..6 {
        for jobs in [0u64, 1, 3, 5, 17] {
            assert_eq!(run_pool(size, jobs), jobs);
        }
    }
}

#[test]
fn shutdown_drains_pending_job() {
    let counter = Rc::new(Cell::new(0));
    let mut pool: PoolCore<Job> = PoolCore::create(1).unwrap();
    pool.submit(counting_job(&counter)).unwrap();
    assert_eq!(pool.request_stop(), 1);
    assert_eq!(pool.state(), PoolState::ShuttingDown);
    assert_eq!(pool.pending_len(), 2);
    match pool.take() {
        Some(Message::NewJob(job)) => job(),
        _ => panic!("the job must come before the stop signal"),
    }
    assert!(matches!(pool.take(), Some(Message::Terminate)));
    assert!(pool.take().is_none());
    assert_eq!(counter.get(), 1);
    assert_eq!(pool.record_joins(&vec![true]), Ok(()));
}

#[test]
fn zero_workers_is_invalid() {
    assert!(matches!(
        PoolCore::<Job>::create(0),
        Err(PoolError::InvalidConfiguration)
    ));
}

#[test]
fn submit_after_shutdown_is_refused() {
    let counter = Rc::new(Cell::new(0));
    let mut pool: PoolCore<Job> = PoolCore::create(2).unwrap();
    pool.request_stop();
    assert_eq!(drain(&mut pool), 2);
    pool.record_joins(&vec![true, true]).unwrap();
    let before = pool.pending_len();
    assert_eq!(
        pool.submit(counting_job(&counter)),
        Err(PoolError::PoolUnavailable)
    );
    assert_eq!(pool.pending_len(), before);
    assert_eq!(drain(&mut pool), 0);
    assert_eq!(counter.get(), 0);
}

#[test]
fn submit_while_shutting_down_is_refused() {
    let mut pool: PoolCore<u64> = PoolCore::create(3).unwrap();
    pool.submit(1).unwrap();
    pool.request_stop();
    assert_eq!(pool.submit(2), Err(PoolError::PoolUnavailable));
    assert_eq!(pool.pending_len(), 4);
}

#[test]
fn second_shutdown_is_noop() {
    let mut pool: PoolCore<u64> = PoolCore::create(4).unwrap();
    assert_eq!(pool.request_stop(), 4);
    assert_eq!(drain_ids(&mut pool), (vec![], 4));
    assert_eq!(pool.record_joins(&vec![true; 4]), Ok(()));
    assert_eq!(pool.request_stop(), 0);
    assert_eq!(pool.pending_len(), 0);
    assert_eq!(pool.record_joins(&vec![]), Ok(()));
    assert_eq!(pool.state(), PoolState::Terminated);
}

fn drain_ids(pool: &mut PoolCore<u64>) -> (Vec<u64>, usize) {
    let mut ran = Vec::new();
    let mut exited = 0;
    while let Some(msg) = pool.take() {
        match next_step(msg) {
            WorkerStep::Run(id) => ran.push(id),
            WorkerStep::Exit => exited += 1,
        }
    }
    (ran, exited)
}

#[test]
fn interleaved_submitters_lose_nothing() {
    let mut pool: PoolCore<u64> = PoolCore::create(2).unwrap();
    let mut accepted = Vec::new();
    for round in 0..10u64 {
        for submitter in 0..3u64 {
            let id = submitter * 100 + round;
            pool.submit(id).unwrap();
            accepted.push(id);
        }
    }
    pool.request_stop();
    let (ran, exited) = drain_ids(&mut pool);
    assert_eq!(ran, accepted);
    assert_eq!(exited, 2);
}

#[test]
fn jobs_are_taken_in_submission_order() {
    let mut pool: PoolCore<u64> = PoolCore::create(1).unwrap();
    for id in [5u64, 3, 9] {
        pool.submit(id).unwrap();
    }
    assert!(matches!(pool.take(), Some(Message::NewJob(5))));
    assert!(matches!(pool.take(), Some(Message::NewJob(3))));
    assert!(matches!(pool.take(), Some(Message::NewJob(9))));
    assert!(pool.take().is_none());
}

#[test]
fn join_failures_are_counted() {
    assert_eq!(join_report(&vec![true, true]), Ok(()));
    assert_eq!(join_report(&vec![]), Ok(()));
    assert_eq!(
        join_report(&vec![false, true, false]),
        Err(PoolError::WorkerJoinFailure { failed: 2 })
    );
}

#[test]
fn failed_join_is_reported_and_pool_released() {
    let mut pool: PoolCore<u64> = PoolCore::create(3).unwrap();
    pool.request_stop();
    assert_eq!(
        pool.record_joins(&vec![true, false, true]),
        Err(PoolError::WorkerJoinFailure { failed: 1 })
    );
    assert_eq!(pool.state(), PoolState::Terminated);
    assert_eq!(pool.record_joins(&vec![]), Ok(()));
}

#[test]
fn size_is_kept() {
    let pool: PoolCore<u64> = PoolCore::create(7).unwrap();
    assert_eq!(pool.size(), 7);
    assert_eq!(pool.state(), PoolState::Active);
    assert_eq!(pool.pending_len(), 0);
}
