//! The pool as a transition system: its state as contracts see it, the events
//! that move it, and the invariant that every event keeps.
use crate::worker::{WorkerEvent, WorkerState};
use vstd::multiset::*;
use vstd::prelude::*;
use vstd::seq_lib::*;

verus! {

/// How many of `workers` are in `state`.
pub open spec fn count_of(workers: Seq<WorkerState>, state: WorkerState) -> nat {
    workers.to_multiset().count(state)
}

/// The jobs that run right now, given what each worker runs.
pub open spec fn in_flight<J>(running: Seq<Option<J>>) -> Multiset<J>
    decreases running.len(),
{
    if running.len() == 0 {
        Multiset::empty()
    } else {
        match running.last() {
            Some(job) => in_flight(running.drop_last()).insert(job),
            None => in_flight(running.drop_last()),
        }
    }
}

/// The jobs that the events of `events` submit, in the order of submission.
pub open spec fn jobs_of<J>(events: Seq<PoolEvent<J>>) -> Seq<J>
    decreases events.len(),
{
    if events.len() == 0 {
        Seq::empty()
    } else {
        match events.last() {
            PoolEvent::Execute(job) => jobs_of(events.drop_last()).push(job),
            _ => jobs_of(events.drop_last()),
        }
    }
}

/// The pool as contracts see it: what it holds, and what has happened to the
/// jobs that went through it.
pub struct PoolView<J> {
    /// The state of each worker, by slot.
    pub workers: Seq<WorkerState>,
    /// The jobs that wait for a worker, oldest first.
    pub queue: Seq<J>,
    /// Whether the producer handle is still there.
    pub open: bool,
    /// Every job ever submitted, in the order of submission.
    pub submitted: Seq<J>,
    /// Every job ever handed to a worker, in the order of the hand-off.
    pub delivered: Seq<J>,
    /// The job that each worker runs, by slot.
    pub running: Seq<Option<J>>,
    /// The jobs that have run to their end, in the order of their ends.
    pub completed: Seq<J>,
    /// The jobs that panicked and took their workers down.
    pub lost: Seq<J>,
}

/// What can happen to a pool.
pub enum PoolEvent<J> {
    /// The owner submits a job.
    Execute(J),
    /// The owner gives up the producer handle.
    Close,
    /// The worker in the given slot enters a receive.
    Receive(int),
    /// The receive of the worker in the given slot hands it the oldest job
    /// that waits.
    Deliver(int),
    /// The receive of the worker in the given slot fails, and the worker
    /// leaves its loop.
    Dismiss(int),
    /// The job that the worker in the given slot runs returns.
    JobDone(int),
    /// The job that the worker in the given slot runs panics.
    JobPanicked(int),
}

impl<J> PoolEvent<J> {
    /// The event happens to the worker in slot `worker`.
    pub open spec fn concerns(self, worker: int) -> bool {
        match self {
            PoolEvent::Receive(slot) => slot == worker,
            PoolEvent::Deliver(slot) => slot == worker,
            PoolEvent::Dismiss(slot) => slot == worker,
            PoolEvent::JobDone(slot) => slot == worker,
            PoolEvent::JobPanicked(slot) => slot == worker,
            PoolEvent::Execute(_) | PoolEvent::Close => false,
        }
    }
}

impl<J> PoolView<J> {
    /// A pool of `size` workers on which nothing has happened yet.
    pub open spec fn fresh(size: nat) -> PoolView<J> {
        PoolView {
            workers: Seq::new(size, |i: int| WorkerState::Idle),
            queue: Seq::empty(),
            open: true,
            submitted: Seq::empty(),
            delivered: Seq::empty(),
            running: Seq::new(size, |i: int| None),
            completed: Seq::empty(),
            lost: Seq::empty(),
        }
    }

    /// How many workers run a job.
    pub open spec fn busy(self) -> nat {
        count_of(self.workers, WorkerState::Busy)
    }

    /// How many workers were brought down by a job.
    pub open spec fn panicked(self) -> nat {
        count_of(self.workers, WorkerState::Panicked)
    }

    /// `worker` is a slot of the pool.
    pub open spec fn has_slot(self, worker: int) -> bool {
        0 <= worker < self.workers.len()
    }

    /// Every worker's thread is over.
    pub open spec fn all_ended(self) -> bool {
        forall|i: int| self.has_slot(i) ==> (#[trigger] self.workers[i]).has_ended()
    }

    /// Every worker has left its loop in the regular way.
    pub open spec fn all_terminated(self) -> bool {
        forall|i: int| self.has_slot(i) ==> #[trigger] self.workers[i] == WorkerState::Terminated
    }

    /// What holds of a pool at every moment of its life.
    ///
    /// - It has a worker.
    /// - The busy workers are those that run a job.
    /// - What was submitted is what was delivered, followed by what waits.
    /// - Every delivered job has run to its end, is running, or went down with
    ///   its worker, and is counted once for each time it was delivered.
    /// - Every worker that went down took one job with it.
    /// - A worker leaves its loop only once the producer is gone and nothing
    ///   waits.
    pub open spec fn wf(self) -> bool {
        &&& self.workers.len() >= 1
        &&& self.running.len() == self.workers.len()
        &&& forall|i: int|
            self.has_slot(i) ==> (#[trigger] self.workers[i] == WorkerState::Busy
                <==> self.running[i] is Some)
        &&& self.submitted == self.delivered + self.queue
        &&& self.delivered.to_multiset() == self.completed.to_multiset().add(
            self.lost.to_multiset(),
        ).add(in_flight(self.running))
        &&& self.lost.len() == self.panicked()
        &&& forall|i: int|
            self.has_slot(i) && #[trigger] self.workers[i] == WorkerState::Terminated ==> !self.open
                && self.queue.len() == 0
    }

    /// A bound on the number of events that can still happen once the
    /// producer is gone. A job that waits is delivered and ends, and its
    /// worker becomes idle; a job that runs ends likewise; an idle worker
    /// enters a receive; and a worker in a receive sees it fail.
    pub open spec fn work_left(self) -> nat {
        3 * self.queue.len() + 3 * count_of(self.workers, WorkerState::Busy) + 2 * count_of(
            self.workers,
            WorkerState::Idle,
        ) + count_of(self.workers, WorkerState::Receiving)
    }

    /// The worker in slot `worker` is blocked: it is in a receive, nothing
    /// waits, and the producer is still there.
    pub open spec fn blocks(self, worker: int) -> bool {
        &&& self.has_slot(worker)
        &&& self.workers[worker] == WorkerState::Receiving
        &&& self.queue.len() == 0
        &&& self.open
    }

    /// The pool after `event` has happened to the worker in slot `worker`, and
    /// to nothing else.
    pub open spec fn with_worker(self, worker: int, event: WorkerEvent) -> PoolView<J> {
        PoolView { workers: self.workers.update(worker, self.workers[worker].after(event)), ..self }
    }

    /// Whether `event` can happen now.
    ///
    /// - Jobs are accepted as long as the producer is there, however many
    ///   wait and whatever the workers do, and the producer is given up once.
    /// - An idle worker can enter a receive at any time.
    /// - A receive hands out a job as soon as one waits. It fails when none
    ///   waits and the producer is gone. Otherwise it goes on.
    /// - A job ends for a worker that runs one.
    pub open spec fn enabled(self, event: PoolEvent<J>) -> bool {
        match event {
            PoolEvent::Execute(_) => self.open,
            PoolEvent::Close => self.open,
            PoolEvent::Receive(worker) => {
                &&& self.has_slot(worker)
                &&& self.workers[worker].accepts(WorkerEvent::Receive)
            },
            PoolEvent::Deliver(worker) => {
                &&& self.has_slot(worker)
                &&& self.workers[worker].accepts(WorkerEvent::Job)
                &&& self.queue.len() > 0
            },
            PoolEvent::Dismiss(worker) => {
                &&& self.has_slot(worker)
                &&& self.workers[worker].accepts(WorkerEvent::Closed)
                &&& self.queue.len() == 0
                &&& !self.open
            },
            PoolEvent::JobDone(worker) => {
                &&& self.has_slot(worker)
                &&& self.workers[worker].accepts(WorkerEvent::Done)
            },
            PoolEvent::JobPanicked(worker) => {
                &&& self.has_slot(worker)
                &&& self.workers[worker].accepts(WorkerEvent::Panic)
            },
        }
    }

    /// The pool after `event`.
    ///
    /// - A submitted job goes to the end of the queue.
    /// - Giving up the producer changes nothing else.
    /// - A worker that enters a receive, or whose receive fails, moves, and
    ///   nothing else does.
    /// - A delivery takes the job at the head of the queue and puts it into
    ///   the hands of the worker, which is busy from then on.
    /// - A job that ends, either way, is no longer running: it counts as
    ///   completed if it returned, as lost if it panicked. Its worker is idle
    ///   after a return and gone after a panic.
    pub open spec fn step(self, event: PoolEvent<J>) -> PoolView<J> {
        match event {
            PoolEvent::Execute(job) => PoolView {
                queue: self.queue.push(job),
                submitted: self.submitted.push(job),
                ..self
            },
            PoolEvent::Close => PoolView { open: false, ..self },
            PoolEvent::Receive(worker) => self.with_worker(worker, WorkerEvent::Receive),
            PoolEvent::Deliver(worker) => PoolView {
                queue: self.queue.drop_first(),
                delivered: self.delivered.push(self.queue.first()),
                running: self.running.update(worker, Some(self.queue.first())),
                ..self.with_worker(worker, WorkerEvent::Job)
            },
            PoolEvent::Dismiss(worker) => self.with_worker(worker, WorkerEvent::Closed),
            PoolEvent::JobDone(worker) => PoolView {
                running: self.running.update(worker, None),
                completed: self.completed.push(self.running[worker]->0),
                ..self.with_worker(worker, WorkerEvent::Done)
            },
            PoolEvent::JobPanicked(worker) => PoolView {
                running: self.running.update(worker, None),
                lost: self.lost.push(self.running[worker]->0),
                ..self.with_worker(worker, WorkerEvent::Panic)
            },
        }
    }

    /// The pool after the events of `events` have happened to it, one after
    /// the other.
    pub open spec fn run(self, events: Seq<PoolEvent<J>>) -> PoolView<J>
        decreases events.len(),
    {
        if events.len() == 0 {
            self
        } else {
            self.run(events.drop_last()).step(events.last())
        }
    }

    /// Whether the events of `events` can happen to the pool one after the
    /// other: each of them can happen when its turn comes.
    pub open spec fn admits(self, events: Seq<PoolEvent<J>>) -> bool
        decreases events.len(),
    {
        events.len() > 0 ==> self.admits(events.drop_last()) && self.run(
            events.drop_last(),
        ).enabled(events.last())
    }
}

/// A state that no worker is in is counted zero times.
pub proof fn lemma_count_absent(workers: Seq<WorkerState>, state: WorkerState)
    requires
        forall|i: int| 0 <= i < workers.len() ==> workers[i] != state,
    ensures
        count_of(workers, state) == 0,
{
    to_multiset_contains(workers, state);
}

/// Counting one worker more adds one if that worker is in `state`.
pub proof fn lemma_count_push(workers: Seq<WorkerState>, last: WorkerState, state: WorkerState)
    ensures
        count_of(workers.push(last), state) == count_of(workers, state) + (if last == state {
            1int
        } else {
            0int
        }),
{
    broadcast use group_multiset_axioms;

    to_multiset_build(workers, last);
}

/// Moving one worker to another state takes one from the count of the state
/// it leaves and adds one to the count of the state it enters.
pub proof fn lemma_count_update(
    workers: Seq<WorkerState>,
    worker: int,
    to: WorkerState,
    state: WorkerState,
)
    requires
        0 <= worker < workers.len(),
    ensures
        count_of(workers.update(worker, to), state) == count_of(workers, state) + (if to == state {
            1int
        } else {
            0int
        }) - (if workers[worker] == state {
            1int
        } else {
            0int
        }),
{
    broadcast use group_multiset_axioms;

    to_multiset_update(workers, worker, to);
    to_multiset_contains(workers, workers[worker]);
}

/// No more workers are in one state than there are workers.
pub proof fn lemma_count_within_len(workers: Seq<WorkerState>, state: WorkerState)
    ensures
        count_of(workers, state) <= workers.len(),
    decreases workers.len(),
{
    if workers.len() == 0 {
        lemma_count_absent(workers, state);
    } else {
        lemma_count_within_len(workers.drop_last(), state);
        lemma_count_push(workers.drop_last(), workers.last(), state);
        assert(workers.drop_last().push(workers.last()) =~= workers);
    }
}

/// Where no worker runs a job, no job is running.
pub proof fn lemma_in_flight_none<J>(running: Seq<Option<J>>)
    requires
        forall|i: int| 0 <= i < running.len() ==> running[i] is None,
    ensures
        in_flight(running) == Multiset::<J>::empty(),
    decreases running.len(),
{
    if running.len() > 0 {
        lemma_in_flight_none(running.drop_last());
    }
}

/// A worker that takes up a job adds it to the jobs that run.
pub proof fn lemma_in_flight_start<J>(running: Seq<Option<J>>, worker: int, job: J)
    requires
        0 <= worker < running.len(),
        running[worker] is None,
    ensures
        in_flight(running.update(worker, Some(job))) == in_flight(running).insert(job),
    decreases running.len(),
{
    broadcast use group_multiset_axioms;

    let after = running.update(worker, Some(job));
    if worker == running.len() - 1 {
        assert(after.drop_last() =~= running.drop_last());
    } else {
        lemma_in_flight_start(running.drop_last(), worker, job);
        assert(after.drop_last() =~= running.drop_last().update(worker, Some(job)));
    }
    assert(in_flight(after) =~= in_flight(running).insert(job));
}

/// A worker whose job ends takes it from the jobs that run, where it was.
pub proof fn lemma_in_flight_end<J>(running: Seq<Option<J>>, worker: int)
    requires
        0 <= worker < running.len(),
        running[worker] is Some,
    ensures
        in_flight(running).count(running[worker]->0) > 0,
        in_flight(running.update(worker, None)) == in_flight(running).remove(running[worker]->0),
    decreases running.len(),
{
    broadcast use group_multiset_axioms;

    let after = running.update(worker, None);
    if worker == running.len() - 1 {
        assert(after.drop_last() =~= running.drop_last());
    } else {
        lemma_in_flight_end(running.drop_last(), worker);
        assert(after.drop_last() =~= running.drop_last().update(worker, None));
    }
    assert(in_flight(after) =~= in_flight(running).remove(running[worker]->0));
}

} // verus!
