//! One worker of the pool: the state machine that its thread walks through.
use vstd::prelude::*;

verus! {

/// Where a worker's thread stands in its receive loop.
#[derive(Clone, Copy, Debug, PartialEq, Eq, Structural)]
pub enum WorkerState {
    /// Between jobs: the busy flag is down and no receive is under way.
    Idle,
    /// In a receive: blocked until a job comes or the producer goes.
    Receiving,
    /// Running a job: the busy flag is up.
    Busy,
    /// Left the loop after a receive on the closed, drained queue.
    Terminated,
    /// Brought down by a job that panicked.
    Panicked,
}

/// What can happen to a worker's thread.
#[derive(Clone, Copy, Debug, PartialEq, Eq, Structural)]
pub enum WorkerEvent {
    /// The thread enters a receive.
    Receive,
    /// The receive hands the worker a job.
    Job,
    /// The receive fails: the producer is gone and the queue is drained.
    Closed,
    /// The job returns.
    Done,
    /// The job panics.
    Panic,
}

impl WorkerState {
    /// The thread is over, one way or the other.
    pub open spec fn has_ended(self) -> bool {
        self == WorkerState::Terminated || self == WorkerState::Panicked
    }

    /// Whether `event` can happen in this state. An idle thread enters a
    /// receive; a receive ends for a thread that is in one; a job ends for a
    /// thread that runs one; nothing happens to a thread that is over.
    pub open spec fn accepts(self, event: WorkerEvent) -> bool {
        match event {
            WorkerEvent::Receive => self == WorkerState::Idle,
            WorkerEvent::Job | WorkerEvent::Closed => self == WorkerState::Receiving,
            WorkerEvent::Done | WorkerEvent::Panic => self == WorkerState::Busy,
        }
    }

    /// The state that `event` leads to.
    pub open spec fn after(self, event: WorkerEvent) -> WorkerState {
        match event {
            WorkerEvent::Receive => WorkerState::Receiving,
            WorkerEvent::Job => WorkerState::Busy,
            WorkerEvent::Closed => WorkerState::Terminated,
            WorkerEvent::Done => WorkerState::Idle,
            WorkerEvent::Panic => WorkerState::Panicked,
        }
    }
}

/// Joining found that the worker's thread had been brought down by a panic.
#[derive(Clone, Copy, Debug, PartialEq, Eq, Structural)]
pub struct JoinError;

/// One slot of the pool.
#[derive(Debug)]
pub struct Worker {
    state: WorkerState,
}

impl View for Worker {
    type V = WorkerState;

    closed spec fn view(&self) -> WorkerState {
        self.state
    }
}

impl Worker {
    /// A fresh worker, idle and about to enter its first receive.
    pub fn new() -> (worker: Worker)
        ensures
            worker@ == WorkerState::Idle,
    {
        Worker { state: WorkerState::Idle }
    }

    /// The worker's current state.
    pub fn state(&self) -> (state: WorkerState)
        ensures
            state == self@,
    {
        self.state
    }

    /// Whether the worker is running a job right now.
    pub fn is_working(&self) -> (busy: bool)
        ensures
            busy == (self@ == WorkerState::Busy),
    {
        match self.state {
            WorkerState::Busy => true,
            _ => false,
        }
    }

    /// Moves the worker along its state machine.
    pub fn step(&mut self, event: WorkerEvent)
        requires
            old(self)@.accepts(event),
        ensures
            final(self)@ == old(self)@.after(event),
    {
        self.state = match event {
            WorkerEvent::Receive => WorkerState::Receiving,
            WorkerEvent::Job => WorkerState::Busy,
            WorkerEvent::Closed => WorkerState::Terminated,
            WorkerEvent::Done => WorkerState::Idle,
            WorkerEvent::Panic => WorkerState::Panicked,
        };
    }

    /// Takes the worker's thread back once it is over, and says how it ended.
    pub fn join(self) -> (result: Result<(), JoinError>)
        requires
            self@.has_ended(),
        ensures
            result is Ok <==> self@ == WorkerState::Terminated,
    {
        match self.state {
            WorkerState::Terminated => Ok(()),
            _ => Err(JoinError),
        }
    }
}

} // verus!
