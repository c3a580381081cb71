use std::cell::RefCell;
use std::rc::Rc;
use std::sync::atomic::{AtomicUsize, Ordering};
use std::sync::Arc;
use swimming_pool::{Received, ShutdownError, ThreadPool, WorkerState};

/// One receive by the worker in `slot`, entered first if the worker is idle.
fn receive<J>(pool: &mut ThreadPool<J>, slot: usize) -> Received<J> {
    if pool.worker_state(slot) == WorkerState::Idle {
        pool.enter_receive(slot);
    }
    pool.receive(slot)
}

/// Lets the worker in `slot` make one receive and, if it got a job, run it to
/// its end. Says whether the worker is still in its loop.
fn turn(pool: &mut ThreadPool<u32>, slot: usize, sink: &mut Vec<u32>) -> bool {
    match receive(pool, slot) {
        Received::Job(job) => {
            sink.push(job);
            pool.job_done(slot);
            true
        }
        Received::Empty => true,
        Received::Closed => false,
    }
}

/// Gives the workers turns, round robin, until each has left its loop.
fn drain(pool: &mut ThreadPool<u32>, sink: &mut Vec<u32>) {
    let size = pool.get_pool_size();
    let mut live = vec![true; size];
    while live.iter().any(|in_loop| *in_loop) {
        for slot in 0..size {
            if live[slot] {
                live[slot] = turn(pool, slot, sink);
            }
        }
    }
}

#[test]
fn new_pool_has_the_size_asked_for_and_no_busy_worker() {
    for size in [1usize, 2, 5, 64] {
        let pool: ThreadPool<u32> = ThreadPool::new(size);
        assert_eq!(pool.get_pool_size(), size);
        assert_eq!(pool.get_working_threads(), 0);
        assert_eq!(pool.pending_jobs(), 0);
        assert!(pool.is_open());
        for slot in 0..size {
            assert_eq!(pool.worker_state(slot), WorkerState::Idle);
        }
    }
}

#[test]
fn execute_queues_without_touching_the_workers() {
    let mut pool: ThreadPool<u32> = ThreadPool::new(2);
    pool.enter_receive(1);
    pool.execute(7);
    pool.execute(8);
    assert_eq!(pool.pending_jobs(), 2);
    assert_eq!(pool.get_working_threads(), 0);
    assert_eq!(pool.worker_state(0), WorkerState::Idle);
    assert_eq!(pool.worker_state(1), WorkerState::Receiving);
    assert!(pool.is_open());
}

#[test]
fn enter_receive_moves_one_worker_and_nothing_else() {
    let mut pool: ThreadPool<u32> = ThreadPool::new(3);
    pool.execute(4);
    pool.enter_receive(1);
    assert_eq!(pool.worker_state(0), WorkerState::Idle);
    assert_eq!(pool.worker_state(1), WorkerState::Receiving);
    assert_eq!(pool.worker_state(2), WorkerState::Idle);
    assert_eq!(pool.pending_jobs(), 1);
    assert_eq!(pool.get_working_threads(), 0);
    assert!(pool.is_open());
}

#[test]
fn receive_hands_out_the_oldest_job() {
    let mut pool: ThreadPool<u32> = ThreadPool::new(2);
    pool.execute(7);
    pool.execute(8);
    pool.enter_receive(1);
    assert!(matches!(pool.receive(1), Received::Job(7)));
    assert_eq!(pool.worker_state(1), WorkerState::Busy);
    assert_eq!(pool.worker_state(0), WorkerState::Idle);
    assert_eq!(pool.pending_jobs(), 1);
    pool.enter_receive(0);
    assert!(matches!(pool.receive(0), Received::Job(8)));
    assert_eq!(pool.worker_state(0), WorkerState::Busy);
    assert_eq!(pool.pending_jobs(), 0);
    assert_eq!(pool.get_working_threads(), 2);
}

#[test]
fn receive_on_an_empty_open_queue_stays_blocked() {
    let mut pool: ThreadPool<u32> = ThreadPool::new(2);
    pool.enter_receive(0);
    assert!(matches!(pool.receive(0), Received::Empty));
    assert_eq!(pool.worker_state(0), WorkerState::Receiving);
    assert_eq!(pool.worker_state(1), WorkerState::Idle);
    assert_eq!(pool.get_working_threads(), 0);
    assert_eq!(pool.pending_jobs(), 0);
    assert!(pool.is_open());
    assert!(matches!(pool.receive(0), Received::Empty));
    assert_eq!(pool.worker_state(0), WorkerState::Receiving);
    pool.execute(3);
    assert!(matches!(pool.receive(0), Received::Job(3)));
    assert_eq!(pool.worker_state(0), WorkerState::Busy);
}

#[test]
fn receive_on_an_empty_closed_queue_ends_the_worker() {
    let mut pool: ThreadPool<u32> = ThreadPool::new(2);
    pool.enter_receive(1);
    assert!(matches!(pool.receive(1), Received::Empty));
    pool.close();
    assert!(!pool.is_open());
    assert!(matches!(pool.receive(1), Received::Closed));
    assert_eq!(pool.worker_state(1), WorkerState::Terminated);
    assert_eq!(pool.worker_state(0), WorkerState::Idle);
}

#[test]
fn close_leaves_the_queue_and_the_workers_alone() {
    let mut pool: ThreadPool<u32> = ThreadPool::new(2);
    pool.execute(1);
    pool.execute(2);
    pool.enter_receive(0);
    assert!(matches!(pool.receive(0), Received::Job(1)));
    pool.close();
    assert!(!pool.is_open());
    assert_eq!(pool.pending_jobs(), 1);
    assert_eq!(pool.get_pool_size(), 2);
    assert_eq!(pool.worker_state(0), WorkerState::Busy);
    assert_eq!(pool.worker_state(1), WorkerState::Idle);
}

#[test]
fn jobs_queued_before_close_are_still_delivered() {
    let mut pool: ThreadPool<u32> = ThreadPool::new(1);
    pool.execute(1);
    pool.execute(2);
    pool.close();
    assert_eq!(pool.pending_jobs(), 2);
    pool.enter_receive(0);
    assert!(matches!(pool.receive(0), Received::Job(1)));
    pool.job_done(0);
    pool.enter_receive(0);
    assert!(matches!(pool.receive(0), Received::Job(2)));
    pool.job_done(0);
    pool.enter_receive(0);
    assert!(matches!(pool.receive(0), Received::Closed));
    assert_eq!(pool.join_all(), Ok(()));
}

#[test]
fn job_done_makes_the_worker_idle_again() {
    let mut pool: ThreadPool<u32> = ThreadPool::new(3);
    pool.execute(1);
    pool.enter_receive(2);
    assert!(matches!(pool.receive(2), Received::Job(1)));
    assert_eq!(pool.get_working_threads(), 1);
    pool.job_done(2);
    assert_eq!(pool.worker_state(2), WorkerState::Idle);
    assert_eq!(pool.get_working_threads(), 0);
}

#[test]
fn working_threads_counts_the_busy_workers() {
    let mut pool: ThreadPool<u32> = ThreadPool::new(4);
    for job in 0..3 {
        pool.execute(job);
    }
    assert_eq!(pool.get_working_threads(), 0);
    assert!(matches!(receive(&mut pool, 0), Received::Job(0)));
    assert_eq!(pool.get_working_threads(), 1);
    assert!(matches!(receive(&mut pool, 2), Received::Job(1)));
    assert_eq!(pool.get_working_threads(), 2);
    assert!(matches!(receive(&mut pool, 3), Received::Job(2)));
    assert_eq!(pool.get_working_threads(), 3);
    assert!(matches!(receive(&mut pool, 1), Received::Empty));
    assert_eq!(pool.get_working_threads(), 3);
    pool.job_done(2);
    assert_eq!(pool.get_working_threads(), 2);
    pool.job_panicked(0);
    assert_eq!(pool.get_working_threads(), 1);
    assert_eq!(pool.get_pool_size(), 4);
}

#[test]
fn every_job_runs_exactly_once() {
    let jobs: u32 = 25;
    let mut pool: ThreadPool<u32> = ThreadPool::new(3);
    let mut sink = Vec::new();
    for job in 0..jobs {
        pool.execute(job);
        if job % 4 == 0 {
            turn(&mut pool, (job % 3) as usize, &mut sink);
        }
    }
    pool.close();
    drain(&mut pool, &mut sink);
    assert_eq!(pool.join_all(), Ok(()));
    assert_eq!(sink.len(), jobs as usize);
    for job in 0..jobs {
        assert_eq!(sink.iter().filter(|seen| **seen == job).count(), 1);
    }
}

#[test]
fn jobs_are_delivered_in_the_order_of_submission() {
    let mut pool: ThreadPool<u32> = ThreadPool::new(2);
    let mut sink = Vec::new();
    for job in [5u32, 3, 9, 3, 1] {
        pool.execute(job);
    }
    pool.close();
    drain(&mut pool, &mut sink);
    assert_eq!(sink, vec![5, 3, 9, 3, 1]);
    assert_eq!(pool.join_all(), Ok(()));
}

#[test]
fn burst_of_jobs_is_queued_and_drained() {
    let jobs: u32 = 10_000;
    let mut pool: ThreadPool<u32> = ThreadPool::new(2);
    let mut sink = Vec::new();
    for job in 0..jobs {
        pool.execute(job);
    }
    assert_eq!(pool.pending_jobs(), jobs as usize);
    assert_eq!(pool.get_working_threads(), 0);
    pool.close();
    drain(&mut pool, &mut sink);
    assert_eq!(pool.pending_jobs(), 0);
    assert_eq!(pool.join_all(), Ok(()));
    assert_eq!(sink, (0..jobs).collect::<Vec<u32>>());
}

#[test]
fn counter_jobs_all_count() {
    let jobs: usize = 200;
    let counter = Arc::new(AtomicUsize::new(0));
    let mut pool: ThreadPool<Box<dyn FnOnce() + Send + 'static>> = ThreadPool::new(4);
    for _ in 0..jobs {
        let counter = Arc::clone(&counter);
        pool.execute(Box::new(move || {
            counter.fetch_add(1, Ordering::SeqCst);
        }));
    }
    pool.close();
    let mut live = 4;
    let mut slot = 0;
    while live > 0 {
        if matches!(
            pool.worker_state(slot),
            WorkerState::Idle | WorkerState::Receiving
        ) {
            match receive(&mut pool, slot) {
                Received::Job(job) => {
                    job();
                    pool.job_done(slot);
                }
                Received::Empty => unreachable!(),
                Received::Closed => live -= 1,
            }
        }
        slot = (slot + 1) % 4;
    }
    assert_eq!(pool.join_all(), Ok(()));
    assert_eq!(counter.load(Ordering::SeqCst), jobs);
}

#[test]
fn busy_workers_never_outnumber_the_pool() {
    let mut pool: ThreadPool<u32> = ThreadPool::new(3);
    let log = Rc::new(RefCell::new(Vec::new()));
    let observe = |pool: &ThreadPool<u32>| {
        let busy = pool.get_working_threads();
        assert!(busy <= pool.get_pool_size());
        log.borrow_mut().push(busy);
    };
    observe(&pool);
    for job in 0..6 {
        pool.execute(job);
        observe(&pool);
    }
    for slot in 0..3 {
        pool.enter_receive(slot);
        observe(&pool);
        assert!(matches!(pool.receive(slot), Received::Job(_)));
        observe(&pool);
    }
    assert_eq!(pool.get_working_threads(), 3);
    for slot in 0..3 {
        pool.job_done(slot);
        observe(&pool);
        assert!(matches!(receive(&mut pool, slot), Received::Job(_)));
        observe(&pool);
    }
    pool.close();
    for slot in 0..3 {
        pool.job_done(slot);
        observe(&pool);
        assert!(matches!(receive(&mut pool, slot), Received::Closed));
        observe(&pool);
    }
    assert_eq!(pool.join_all(), Ok(()));
    assert_eq!(
        *log.borrow(),
        vec![0, 0, 0, 0, 0, 0, 0, 0, 1, 1, 2, 2, 3, 2, 3, 2, 3, 2, 3, 2, 2, 1, 1, 0, 0]
    );
}

#[test]
fn panicking_job_leaves_the_other_workers_at_work() {
    let mut pool: ThreadPool<u32> = ThreadPool::new(3);
    let mut sink = Vec::new();
    for job in 0..7 {
        pool.execute(job);
    }
    assert!(matches!(receive(&mut pool, 1), Received::Job(0)));
    pool.job_panicked(1);
    assert_eq!(pool.worker_state(1), WorkerState::Panicked);
    assert_eq!(pool.worker_state(0), WorkerState::Idle);
    assert_eq!(pool.worker_state(2), WorkerState::Idle);
    assert_eq!(pool.pending_jobs(), 6);
    assert!(pool.is_open());
    pool.execute(7);
    assert!(turn(&mut pool, 0, &mut sink));
    assert!(turn(&mut pool, 2, &mut sink));
    pool.close();
    while turn(&mut pool, 0, &mut sink) {}
    while turn(&mut pool, 2, &mut sink) {}
    assert_eq!(sink, vec![1, 2, 3, 4, 5, 6, 7]);
    assert_eq!(pool.worker_state(1), WorkerState::Panicked);
    assert_eq!(pool.join_all(), Err(ShutdownError { worker: 1 }));
}

#[test]
fn join_all_reports_the_first_panicked_worker() {
    let mut pool: ThreadPool<u32> = ThreadPool::new(4);
    for job in 0..2 {
        pool.execute(job);
    }
    assert!(matches!(receive(&mut pool, 3), Received::Job(0)));
    assert!(matches!(receive(&mut pool, 2), Received::Job(1)));
    pool.job_panicked(3);
    pool.job_panicked(2);
    pool.close();
    assert!(matches!(receive(&mut pool, 0), Received::Closed));
    assert!(matches!(receive(&mut pool, 1), Received::Closed));
    assert_eq!(pool.join_all(), Err(ShutdownError { worker: 2 }));
}

#[test]
fn join_all_fails_when_every_worker_has_panicked() {
    let mut pool: ThreadPool<u32> = ThreadPool::new(1);
    pool.execute(1);
    pool.execute(2);
    assert!(matches!(receive(&mut pool, 0), Received::Job(1)));
    pool.job_panicked(0);
    assert_eq!(pool.pending_jobs(), 1);
    pool.close();
    assert_eq!(pool.join_all(), Err(ShutdownError { worker: 0 }));
}

#[test]
fn join_all_on_an_unused_pool_succeeds() {
    let mut pool: ThreadPool<u32> = ThreadPool::new(2);
    pool.close();
    assert!(matches!(receive(&mut pool, 0), Received::Closed));
    assert!(matches!(receive(&mut pool, 1), Received::Closed));
    assert_eq!(pool.get_working_threads(), 0);
    assert_eq!(pool.join_all(), Ok(()));
}
