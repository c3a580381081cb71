use swimming_pool::{JoinError, Worker, WorkerEvent, WorkerState};

#[test]
fn new_worker_is_idle() {
    let worker = Worker::new();
    assert_eq!(worker.state(), WorkerState::Idle);
    assert!(!worker.is_working());
}

#[test]
fn worker_walks_its_loop() {
    let mut worker = Worker::new();
    worker.step(WorkerEvent::Receive);
    assert_eq!(worker.state(), WorkerState::Receiving);
    assert!(!worker.is_working());
    worker.step(WorkerEvent::Job);
    assert_eq!(worker.state(), WorkerState::Busy);
    assert!(worker.is_working());
    worker.step(WorkerEvent::Done);
    assert_eq!(worker.state(), WorkerState::Idle);
    assert!(!worker.is_working());
    worker.step(WorkerEvent::Receive);
    worker.step(WorkerEvent::Job);
    assert_eq!(worker.state(), WorkerState::Busy);
    worker.step(WorkerEvent::Done);
    worker.step(WorkerEvent::Receive);
    worker.step(WorkerEvent::Closed);
    assert_eq!(worker.state(), WorkerState::Terminated);
    assert!(!worker.is_working());
}

#[test]
fn worker_is_busy_only_while_its_job_runs() {
    let mut worker = Worker::new();
    let mut seen = vec![worker.is_working()];
    for event in [
        WorkerEvent::Receive,
        WorkerEvent::Job,
        WorkerEvent::Done,
        WorkerEvent::Receive,
        WorkerEvent::Job,
        WorkerEvent::Panic,
    ] {
        worker.step(event);
        seen.push(worker.is_working());
    }
    assert_eq!(seen, vec![false, false, true, false, false, true, false]);
}

#[test]
fn join_of_a_terminated_worker_succeeds() {
    let mut worker = Worker::new();
    worker.step(WorkerEvent::Receive);
    worker.step(WorkerEvent::Closed);
    assert_eq!(worker.join(), Ok(()));
}

#[test]
fn join_of_a_panicked_worker_fails() {
    let mut worker = Worker::new();
    worker.step(WorkerEvent::Receive);
    worker.step(WorkerEvent::Job);
    worker.step(WorkerEvent::Panic);
    assert_eq!(worker.state(), WorkerState::Panicked);
    assert!(!worker.is_working());
    assert_eq!(worker.join(), Err(JoinError));
}
