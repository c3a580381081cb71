//! The pool: a fixed set of workers, the queue of jobs that feeds them and
//! the producer handle that shutdown gives up.
use crate::guarantees::{lemma_fresh_pool_is_idle, lemma_shutdown_drains, lemma_step_keeps_wf};
use crate::protocol::{count_of, lemma_count_absent, lemma_count_push, PoolEvent, PoolView};
use crate::worker::{Worker, WorkerEvent, WorkerState};
use std::collections::VecDeque;
use vstd::prelude::*;

verus! {

/// What a worker's receive came back with.
#[derive(Debug)]
pub enum Received<J> {
    /// The oldest waiting job, now the worker's to run.
    Job(J),
    /// Nothing waits, and the producer is still there: the worker stays
    /// blocked.
    Empty,
    /// Nothing waits, and the producer is gone: the worker leaves its loop.
    Closed,
}

/// Shutdown found a worker whose thread had been brought down by a panic.
#[derive(Clone, Copy, Debug, PartialEq, Eq, Structural)]
pub struct ShutdownError {
    /// The slot of the first such worker.
    pub worker: usize,
}

/// A fixed-size pool of workers behind one queue of jobs of type `J`.
pub struct ThreadPool<J> {
    workers: Vec<Worker>,
    queue: VecDeque<J>,
    open: bool,
    submitted: Ghost<Seq<J>>,
    delivered: Ghost<Seq<J>>,
    running: Ghost<Seq<Option<J>>>,
    completed: Ghost<Seq<J>>,
    lost: Ghost<Seq<J>>,
}

impl<J> View for ThreadPool<J> {
    type V = PoolView<J>;

    closed spec fn view(&self) -> PoolView<J> {
        PoolView {
            workers: self.workers@.map_values(|w: Worker| w@),
            queue: self.queue@,
            open: self.open,
            submitted: self.submitted@,
            delivered: self.delivered@,
            running: self.running@,
            completed: self.completed@,
            lost: self.lost@,
        }
    }
}

impl<J> ThreadPool<J> {
    /// The pool's invariant.
    pub open spec fn wf(&self) -> bool {
        self@.wf()
    }

    /// A pool of `size` workers, all of them idle, with an empty queue and
    /// its producer handle in place.
    pub fn new(size: usize) -> (pool: Self)
        requires
            size >= 1,
        ensures
            pool.wf(),
            pool@ == PoolView::<J>::fresh(size as nat),
            pool@.workers.len() == size,
            pool@.busy() == 0,
    {
        let mut workers: Vec<Worker> = Vec::new();
        let mut made: usize = 0;
        while made < size
            invariant
                made <= size,
                workers@.len() == made,
                forall|i: int| 0 <= i < made ==> (#[trigger] workers@[i])@ == WorkerState::Idle,
            decreases size - made,
        {
            workers.push(Worker::new());
            made += 1;
        }
        let pool = ThreadPool {
            workers,
            queue: VecDeque::new(),
            open: true,
            submitted: Ghost(Seq::empty()),
            delivered: Ghost(Seq::empty()),
            running: Ghost(Seq::new(size as nat, |i: int| None)),
            completed: Ghost(Seq::empty()),
            lost: Ghost(Seq::empty()),
        };
        proof {
            assert(pool@.workers =~= PoolView::<J>::fresh(size as nat).workers);
            lemma_fresh_pool_is_idle::<J>(size as nat);
        }
        pool
    }

    /// The number of workers, fixed when the pool was made.
    pub fn get_pool_size(&self) -> (size: usize)
        ensures
            size == self@.workers.len(),
    {
        self.workers.len()
    }

    /// The number of workers that run a job right now.
    pub fn get_working_threads(&self) -> (busy: usize)
        ensures
            busy == self@.busy(),
            busy <= self@.workers.len(),
    {
        let mut busy: usize = 0;
        let mut seen: usize = 0;
        proof {
            lemma_count_absent(self@.workers.take(0), WorkerState::Busy);
        }
        while seen < self.workers.len()
            invariant
                seen <= self.workers.len(),
                busy <= seen,
                busy == count_of(self@.workers.take(seen as int), WorkerState::Busy),
            decreases self.workers.len() - seen,
        {
            proof {
                assert(self@.workers.take(seen + 1) =~= self@.workers.take(seen as int).push(
                    self@.workers[seen as int],
                ));
                lemma_count_push(
                    self@.workers.take(seen as int),
                    self@.workers[seen as int],
                    WorkerState::Busy,
                );
            }
            if self.workers[seen].is_working() {
                busy += 1;
            }
            seen += 1;
        }
        proof {
            assert(self@.workers.take(seen as int) =~= self@.workers);
        }
        busy
    }

    /// Whether the producer handle is still there, so that jobs can be
    /// submitted.
    pub fn is_open(&self) -> (open: bool)
        ensures
            open == self@.open,
    {
        self.open
    }

    /// The number of jobs that wait for a worker.
    pub fn pending_jobs(&self) -> (pending: usize)
        ensures
            pending == self@.queue.len(),
    {
        self.queue.len()
    }

    /// The state of the worker in slot `worker`.
    pub fn worker_state(&self, worker: usize) -> (state: WorkerState)
        requires
            self@.has_slot(worker as int),
        ensures
            state == self@.workers[worker as int],
    {
        self.workers[worker].state()
    }

    /// Hands `job` to the queue, behind every job submitted before it. The
    /// workers play no part in this: a submission never waits for one of
    /// them.
    pub fn execute(&mut self, job: J)
        requires
            old(self).wf(),
            old(self)@.open,
        ensures
            final(self).wf(),
            final(self)@ == old(self)@.step(PoolEvent::Execute(job)),
    {
        let ghost submitted = self.submitted@.push(job);
        self.queue.push_back(job);
        self.submitted = Ghost(submitted);
        proof {
            lemma_step_keeps_wf(old(self)@, PoolEvent::Execute(job));
        }
    }

    /// The worker in slot `worker`, idle until now, enters a receive.
    pub fn enter_receive(&mut self, worker: usize)
        requires
            old(self).wf(),
            old(self)@.has_slot(worker as int),
            old(self)@.workers[worker as int] == WorkerState::Idle,
        ensures
            final(self).wf(),
            final(self)@ == old(self)@.step(PoolEvent::Receive(worker as int)),
    {
        self.set_worker(worker, WorkerEvent::Receive);
        proof {
            lemma_step_keeps_wf(old(self)@, PoolEvent::Receive(worker as int));
        }
    }

    /// What the receive of the worker in slot `worker` comes to, as things
    /// stand. If a job waits, the worker gets the oldest one and is busy from
    /// now on. If none waits and the producer is gone, the receive fails and
    /// the worker leaves its loop for good. If none waits and the producer is
    /// there, the worker stays blocked, and nothing has happened.
    pub fn receive(&mut self, worker: usize) -> (received: Received<J>)
        requires
            old(self).wf(),
            old(self)@.has_slot(worker as int),
            old(self)@.workers[worker as int] == WorkerState::Receiving,
        ensures
            final(self).wf(),
            match received {
                Received::Job(job) => {
                    &&& old(self)@.queue.len() > 0
                    &&& job == old(self)@.queue.first()
                    &&& final(self)@ == old(self)@.step(PoolEvent::Deliver(worker as int))
                },
                Received::Empty => {
                    &&& old(self)@.blocks(worker as int)
                    &&& final(self)@ == old(self)@
                },
                Received::Closed => {
                    &&& old(self)@.queue.len() == 0
                    &&& !old(self)@.open
                    &&& final(self)@ == old(self)@.step(PoolEvent::Dismiss(worker as int))
                },
            },
    {
        match self.queue.pop_front() {
            Some(job) => {
                self.set_worker(worker, WorkerEvent::Job);
                self.delivered = Ghost(self.delivered@.push(job));
                self.running = Ghost(self.running@.update(worker as int, Some(job)));
                proof {
                    assert(final(self)@.queue =~= old(self)@.queue.drop_first());
                    lemma_step_keeps_wf(old(self)@, PoolEvent::Deliver(worker as int));
                }
                Received::Job(job)
            },
            None => if self.open {
                Received::Empty
            } else {
                self.set_worker(worker, WorkerEvent::Closed);
                proof {
                    lemma_step_keeps_wf(old(self)@, PoolEvent::Dismiss(worker as int));
                }
                Received::Closed
            },
        }
    }

    /// The job that the worker in slot `worker` was running has returned: the
    /// worker is idle again, and one more job has run to its end.
    pub fn job_done(&mut self, worker: usize)
        requires
            old(self).wf(),
            old(self)@.has_slot(worker as int),
            old(self)@.workers[worker as int] == WorkerState::Busy,
        ensures
            final(self).wf(),
            final(self)@ == old(self)@.step(PoolEvent::JobDone(worker as int)),
    {
        self.set_worker(worker, WorkerEvent::Done);
        self.completed = Ghost(self.completed@.push(self.running@[worker as int]->0));
        self.running = Ghost(self.running@.update(worker as int, None));
        proof {
            lemma_step_keeps_wf(old(self)@, PoolEvent::JobDone(worker as int));
        }
    }

    /// The job that the worker in slot `worker` was running has panicked and
    /// taken the worker's thread with it. The job is lost; the queue and the
    /// other workers are untouched.
    pub fn job_panicked(&mut self, worker: usize)
        requires
            old(self).wf(),
            old(self)@.has_slot(worker as int),
            old(self)@.workers[worker as int] == WorkerState::Busy,
        ensures
            final(self).wf(),
            final(self)@ == old(self)@.step(PoolEvent::JobPanicked(worker as int)),
    {
        self.set_worker(worker, WorkerEvent::Panic);
        self.lost = Ghost(self.lost@.push(self.running@[worker as int]->0));
        self.running = Ghost(self.running@.update(worker as int, None));
        proof {
            lemma_step_keeps_wf(old(self)@, PoolEvent::JobPanicked(worker as int));
        }
    }

    /// Begins shutdown: gives up the producer handle. What waits in the queue
    /// stays there for the workers to take.
    pub fn close(&mut self)
        requires
            old(self).wf(),
            old(self)@.open,
        ensures
            final(self).wf(),
            final(self)@ == old(self)@.step(PoolEvent::Close),
    {
        self.open = false;
        proof {
            lemma_step_keeps_wf(old(self)@, PoolEvent::Close);
        }
    }

    /// Ends shutdown, once the producer handle is gone and every worker's
    /// thread is over: joins the workers, in the order of their slots, and
    /// reports the first whose thread was brought down by a panic. Where
    /// there is none, every job that was ever submitted has run to its end.
    pub fn join_all(self) -> (result: Result<(), ShutdownError>)
        requires
            self.wf(),
            !self@.open,
            self@.all_ended(),
        ensures
            match result {
                Ok(()) => {
                    &&& self@.all_terminated()
                    &&& self@.queue.len() == 0
                    &&& self@.delivered == self@.submitted
                    &&& self@.completed.to_multiset() == self@.submitted.to_multiset()
                },
                Err(error) => {
                    &&& self@.has_slot(error.worker as int)
                    &&& self@.workers[error.worker as int] == WorkerState::Panicked
                    &&& forall|i: int|
                        0 <= i < error.worker ==> #[trigger] self@.workers[i]
                            == WorkerState::Terminated
                },
            },
    {
        let ghost states = self@.workers;
        let ghost slots = self.workers@;
        let size: usize = self.workers.len();
        let mut first: Option<usize> = None;
        let mut slot: usize = 0;
        for worker in it: self.workers.into_iter()
            invariant
                slot == it.index(),
                it.seq() == slots,
                slots.len() == states.len(),
                slots.len() == size,
                forall|i: int| 0 <= i < slots.len() ==> (#[trigger] slots[i])@ == states[i],
                forall|i: int| 0 <= i < states.len() ==> (#[trigger] states[i]).has_ended(),
                match first {
                    None => forall|i: int|
                        0 <= i < slot ==> #[trigger] states[i] == WorkerState::Terminated,
                    Some(found) => {
                        &&& found < slot
                        &&& states[found as int] == WorkerState::Panicked
                        &&& forall|i: int|
                            0 <= i < found ==> #[trigger] states[i] == WorkerState::Terminated
                    },
                },
        {
            let joined = worker.join();
            if first.is_none() && joined.is_err() {
                first = Some(slot);
            }
            slot += 1;
        }
        match first {
            None => {
                proof {
                    lemma_shutdown_drains(self@);
                }
                Ok(())
            },
            Some(found) => Err(ShutdownError { worker: found }),
        }
    }

    /// Lets `event` happen to the worker in slot `worker`, and to nothing
    /// else.
    fn set_worker(&mut self, worker: usize, event: WorkerEvent)
        requires
            old(self)@.has_slot(worker as int),
            old(self)@.workers[worker as int].accepts(event),
        ensures
            final(self)@ == old(self)@.with_worker(worker as int, event),
    {
        self.workers[worker].step(event);
        proof {
            assert(final(self)@.workers =~= old(self)@.with_worker(worker as int, event).workers);
        }
    }
}

} // verus!
