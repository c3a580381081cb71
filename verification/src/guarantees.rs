//! What the protocol guarantees, proved of every pool and every event.
use crate::protocol::{
    count_of, in_flight, jobs_of, lemma_count_absent, lemma_count_update, lemma_count_within_len,
    lemma_in_flight_end, lemma_in_flight_none, lemma_in_flight_start, PoolEvent, PoolView,
};
use crate::worker::{WorkerEvent, WorkerState};
use vstd::multiset::*;
use vstd::prelude::*;
use vstd::seq_lib::*;

verus! {

/// A worker is busy from the moment its receive hands it a job to the moment
/// the job ends, and at no other time: only a job makes it busy, and only the
/// end of the job, by return or by panic, makes it something else.
pub proof fn lemma_busy_spans_the_job(state: WorkerState, event: WorkerEvent)
    requires
        state.accepts(event),
    ensures
        state.after(event) == WorkerState::Busy ==> state == WorkerState::Receiving && event
            == WorkerEvent::Job,
        state == WorkerState::Busy ==> event == WorkerEvent::Done || event == WorkerEvent::Panic,
        state == WorkerState::Busy ==> state.after(event) != WorkerState::Busy,
{
}

/// A worker leaves its loop from a receive that fails, and from nowhere else:
/// a busy worker is never terminated before its job has ended.
pub proof fn lemma_termination_follows_a_receive(state: WorkerState, event: WorkerEvent)
    requires
        state.accepts(event),
        state.after(event) == WorkerState::Terminated,
    ensures
        state == WorkerState::Receiving,
        event == WorkerEvent::Closed,
{
}

/// Nothing happens to a worker whose thread is over.
pub proof fn lemma_ended_is_final(state: WorkerState, event: WorkerEvent)
    requires
        state.has_ended(),
    ensures
        !state.accepts(event),
{
}

/// A pool of `size` workers starts with exactly `size` workers, all of them
/// idle and none of them busy, and with nothing submitted.
pub proof fn lemma_fresh_pool_is_idle<J>(size: nat)
    requires
        size >= 1,
    ensures
        PoolView::<J>::fresh(size).wf(),
        PoolView::<J>::fresh(size).workers.len() == size,
        forall|i: int|
            0 <= i < size ==> #[trigger] PoolView::<J>::fresh(size).workers[i] == WorkerState::Idle,
        PoolView::<J>::fresh(size).busy() == 0,
{
    broadcast use group_multiset_axioms;

    let pool = PoolView::<J>::fresh(size);
    lemma_count_absent(pool.workers, WorkerState::Busy);
    lemma_count_absent(pool.workers, WorkerState::Panicked);
    lemma_in_flight_none(pool.running);
    lemma_nothing_holds_nothing::<J>();
    assert(pool.delivered + pool.queue =~= pool.submitted);
    assert(pool.delivered.to_multiset() =~= pool.completed.to_multiset().add(
        pool.lost.to_multiset(),
    ).add(in_flight(pool.running)));
}

/// The empty sequence holds no job.
proof fn lemma_nothing_holds_nothing<J>()
    ensures
        Seq::<J>::empty().to_multiset() == Multiset::<J>::empty(),
{
    broadcast use group_multiset_axioms;

    to_multiset_len(Seq::<J>::empty());
    lemma_multiset_empty_len(Seq::<J>::empty().to_multiset());
    assert(Seq::<J>::empty().to_multiset() =~= Multiset::<J>::empty());
}

/// Whatever state a pool is in, the number of its busy workers lies between
/// zero and the pool's size.
pub proof fn lemma_busy_within_size<J>(pool: PoolView<J>)
    ensures
        0 <= pool.busy() <= pool.workers.len(),
{
    lemma_count_within_len(pool.workers, WorkerState::Busy);
}

/// A worker is seen busy exactly while a job is in its hands.
pub proof fn lemma_busy_means_running<J>(pool: PoolView<J>, worker: int)
    requires
        pool.wf(),
        pool.has_slot(worker),
    ensures
        pool.workers[worker] == WorkerState::Busy <==> pool.running[worker] is Some,
{
}

/// No event changes the number of workers.
pub proof fn lemma_size_is_fixed<J>(pool: PoolView<J>, event: PoolEvent<J>)
    requires
        pool.enabled(event),
    ensures
        pool.step(event).workers.len() == pool.workers.len(),
{
}

/// Every event that can happen leaves the pool's invariant in place.
pub proof fn lemma_step_keeps_wf<J>(pool: PoolView<J>, event: PoolEvent<J>)
    requires
        pool.wf(),
        pool.enabled(event),
    ensures
        pool.step(event).wf(),
{
    broadcast use group_multiset_axioms;

    let next = pool.step(event);
    match event {
        PoolEvent::Execute(job) => {
            assert(next.submitted =~= next.delivered + next.queue);
        },
        PoolEvent::Close => {},
        PoolEvent::Receive(worker) => {
            lemma_count_update(pool.workers, worker, WorkerState::Receiving, WorkerState::Panicked);
        },
        PoolEvent::Deliver(worker) => {
            let job = pool.queue.first();
            lemma_count_update(pool.workers, worker, WorkerState::Busy, WorkerState::Panicked);
            lemma_in_flight_start(pool.running, worker, job);
            to_multiset_build(pool.delivered, job);
            assert(next.delivered.to_multiset() =~= next.completed.to_multiset().add(
                next.lost.to_multiset(),
            ).add(in_flight(next.running)));
            assert(next.submitted =~= next.delivered + next.queue);
        },
        PoolEvent::Dismiss(worker) => {
            lemma_count_update(pool.workers, worker, WorkerState::Terminated, WorkerState::Panicked);
        },
        PoolEvent::JobDone(worker) => {
            let job = pool.running[worker]->0;
            lemma_count_update(pool.workers, worker, WorkerState::Idle, WorkerState::Panicked);
            lemma_in_flight_end(pool.running, worker);
            to_multiset_build(pool.completed, job);
            assert(next.delivered.to_multiset() =~= next.completed.to_multiset().add(
                next.lost.to_multiset(),
            ).add(in_flight(next.running)));
        },
        PoolEvent::JobPanicked(worker) => {
            let job = pool.running[worker]->0;
            lemma_count_update(pool.workers, worker, WorkerState::Panicked, WorkerState::Panicked);
            lemma_in_flight_end(pool.running, worker);
            to_multiset_build(pool.lost, job);
            assert(next.delivered.to_multiset() =~= next.completed.to_multiset().add(
                next.lost.to_multiset(),
            ).add(in_flight(next.running)));
        },
    }
}

/// Jobs reach the workers in the order of their submission, each of them at
/// most once: what was delivered is the front of what was submitted, and what
/// waits is the rest of it.
pub proof fn lemma_delivery_is_fifo<J>(pool: PoolView<J>)
    requires
        pool.wf(),
    ensures
        pool.delivered.is_prefix_of(pool.submitted),
        pool.delivered.len() + pool.queue.len() == pool.submitted.len(),
        pool.queue == pool.submitted.skip(pool.delivered.len() as int),
{
    assert(pool.queue =~= pool.submitted.skip(pool.delivered.len() as int));
}

/// Once every worker's thread is over, each job that was delivered has either
/// run to its end or gone down with its worker, and each worker that went
/// down has cost exactly one job.
pub proof fn lemma_each_panic_loses_one_job<J>(pool: PoolView<J>)
    requires
        pool.wf(),
        pool.all_ended(),
    ensures
        pool.delivered.to_multiset() == pool.completed.to_multiset().add(pool.lost.to_multiset()),
        pool.completed.len() + pool.lost.len() == pool.delivered.len(),
        pool.lost.len() == pool.panicked(),
{
    broadcast use group_multiset_axioms;

    assert forall|i: int| 0 <= i < pool.running.len() implies pool.running[i] is None by {
        assert(pool.workers[i].has_ended());
    }
    lemma_in_flight_none(pool.running);
    assert(pool.delivered.to_multiset() =~= pool.completed.to_multiset().add(
        pool.lost.to_multiset(),
    ));
    to_multiset_len(pool.delivered);
    to_multiset_len(pool.completed);
    to_multiset_len(pool.lost);
}

/// Once every worker has left its loop in the regular way, nothing waits any
/// more: every job that was submitted has been delivered, once and in order,
/// and the jobs that have run to their end are the jobs that were submitted,
/// each as often as it was submitted.
pub proof fn lemma_shutdown_drains<J>(pool: PoolView<J>)
    requires
        pool.wf(),
        pool.all_terminated(),
    ensures
        !pool.open,
        pool.queue.len() == 0,
        pool.delivered == pool.submitted,
        pool.lost.len() == 0,
        pool.completed.to_multiset() == pool.submitted.to_multiset(),
        pool.completed.len() == pool.submitted.len(),
{
    broadcast use group_multiset_axioms;

    assert(pool.workers[0] == WorkerState::Terminated);
    lemma_count_absent(pool.workers, WorkerState::Panicked);
    lemma_each_panic_loses_one_job(pool);
    assert(pool.delivered + pool.queue =~= pool.delivered);
    assert(pool.lost =~= Seq::empty());
    lemma_nothing_holds_nothing::<J>();
    assert(pool.completed.to_multiset() =~= pool.submitted.to_multiset());
}

/// The state of a worker changes with the events of that worker alone:
/// nothing that the owner or another worker does moves it.
pub proof fn lemma_workers_move_by_their_own_events<J>(
    pool: PoolView<J>,
    event: PoolEvent<J>,
    worker: int,
)
    requires
        pool.enabled(event),
        pool.has_slot(worker),
        !event.concerns(worker),
    ensures
        pool.step(event).workers[worker] == pool.workers[worker],
{
}

/// A worker whose thread is over stays as it is, whatever happens to the pool
/// afterwards.
pub proof fn lemma_ended_workers_stay<J>(pool: PoolView<J>, event: PoolEvent<J>, worker: int)
    requires
        pool.enabled(event),
        pool.has_slot(worker),
        pool.workers[worker].has_ended(),
    ensures
        pool.step(event).workers[worker] == pool.workers[worker],
{
}

/// A job that panics takes its own worker down and nothing else: the queue,
/// the producer and every other worker are as before, and whatever could
/// happen to them before can happen to them after.
pub proof fn lemma_panic_is_contained<J>(pool: PoolView<J>, worker: int, event: PoolEvent<J>)
    requires
        pool.enabled(PoolEvent::JobPanicked(worker)),
    ensures
        pool.step(PoolEvent::JobPanicked(worker)).queue == pool.queue,
        pool.step(PoolEvent::JobPanicked(worker)).open == pool.open,
        pool.step(PoolEvent::JobPanicked(worker)).workers[worker] == WorkerState::Panicked,
        forall|other: int|
            pool.has_slot(other) && other != worker ==> #[trigger] pool.step(
                PoolEvent::JobPanicked(worker),
            ).workers[other] == pool.workers[other],
        pool.enabled(event) && !event.concerns(worker) ==> pool.step(
            PoolEvent::JobPanicked(worker),
        ).enabled(event),
{
}

/// While the producer is there, a job can always be submitted: neither the
/// number of jobs that wait nor the state of any worker stands in the way,
/// and the submission changes nothing but the queue, which takes the job at
/// its end.
pub proof fn lemma_submission_never_waits<J>(pool: PoolView<J>, job: J)
    requires
        pool.open,
    ensures
        pool.enabled(PoolEvent::Execute(job)),
        pool.step(PoolEvent::Execute(job)).open,
        pool.step(PoolEvent::Execute(job)).workers == pool.workers,
        pool.step(PoolEvent::Execute(job)).queue == pool.queue.push(job),
{
}

/// No worker is ever stuck. As long as its thread is not over, something can
/// happen to it, unless it is blocked in a receive, with nothing waiting and
/// the producer still there. Once the producer is gone no worker is blocked:
/// its receive hands out a job or lets it go.
pub proof fn lemma_live_workers_can_move<J>(pool: PoolView<J>, worker: int)
    requires
        pool.has_slot(worker),
        !pool.workers[worker].has_ended(),
    ensures
        pool.blocks(worker) || pool.enabled(PoolEvent::Receive(worker)) || pool.enabled(
            PoolEvent::Deliver(worker),
        ) || pool.enabled(PoolEvent::Dismiss(worker)) || pool.enabled(PoolEvent::JobDone(worker)),
        !pool.open ==> !pool.blocks(worker),
{
}

/// With the producer gone, every event brings the end nearer: the work that
/// is left goes down with each of them, and the producer stays gone.
pub proof fn lemma_shutdown_makes_progress<J>(pool: PoolView<J>, event: PoolEvent<J>)
    requires
        !pool.open,
        pool.enabled(event),
    ensures
        !pool.step(event).open,
        pool.step(event).work_left() < pool.work_left(),
{
    match event {
        PoolEvent::Execute(job) => {},
        PoolEvent::Close => {},
        PoolEvent::Receive(worker) => {
            lemma_move_counts(pool.workers, worker, WorkerState::Receiving);
        },
        PoolEvent::Deliver(worker) => {
            lemma_move_counts(pool.workers, worker, WorkerState::Busy);
        },
        PoolEvent::Dismiss(worker) => {
            lemma_move_counts(pool.workers, worker, WorkerState::Terminated);
        },
        PoolEvent::JobDone(worker) => {
            lemma_move_counts(pool.workers, worker, WorkerState::Idle);
        },
        PoolEvent::JobPanicked(worker) => {
            lemma_move_counts(pool.workers, worker, WorkerState::Panicked);
        },
    }
}

/// What moving one worker to the state `to` does to the numbers of busy, idle
/// and receiving workers.
proof fn lemma_move_counts(workers: Seq<WorkerState>, worker: int, to: WorkerState)
    requires
        0 <= worker < workers.len(),
    ensures
        count_of(workers.update(worker, to), WorkerState::Busy) == count_of(
            workers,
            WorkerState::Busy,
        ) + moved(workers[worker], to, WorkerState::Busy),
        count_of(workers.update(worker, to), WorkerState::Idle) == count_of(
            workers,
            WorkerState::Idle,
        ) + moved(workers[worker], to, WorkerState::Idle),
        count_of(workers.update(worker, to), WorkerState::Receiving) == count_of(
            workers,
            WorkerState::Receiving,
        ) + moved(workers[worker], to, WorkerState::Receiving),
{
    lemma_count_update(workers, worker, to, WorkerState::Busy);
    lemma_count_update(workers, worker, to, WorkerState::Idle);
    lemma_count_update(workers, worker, to, WorkerState::Receiving);
}

/// What a worker that goes from `from` to `to` adds to the number of workers
/// in `state`.
spec fn moved(from: WorkerState, to: WorkerState, state: WorkerState) -> int {
    (if to == state {
        1int
    } else {
        0int
    }) - (if from == state {
        1int
    } else {
        0int
    })
}

/// However a pool is driven, its invariant holds throughout, its size stays
/// what it was, and what it records as submitted is what the events have
/// submitted, in their order.
pub proof fn lemma_run_keeps_wf<J>(pool: PoolView<J>, events: Seq<PoolEvent<J>>)
    requires
        pool.wf(),
        pool.admits(events),
    ensures
        pool.run(events).wf(),
        pool.run(events).workers.len() == pool.workers.len(),
        pool.run(events).submitted == pool.submitted + jobs_of(events),
    decreases events.len(),
{
    if events.len() == 0 {
        assert(pool.submitted + jobs_of(events) =~= pool.submitted);
    } else {
        let before = pool.run(events.drop_last());
        lemma_run_keeps_wf(pool, events.drop_last());
        lemma_step_keeps_wf(before, events.last());
        assert(pool.run(events).submitted =~= pool.submitted + jobs_of(events));
    }
}

/// Take a new pool of any size, submit any jobs to it, let its workers
/// receive and run them in any interleaving, and shut it down. Once every
/// worker has left its loop, each of the jobs has been delivered exactly once,
/// in the order of submission, and has run to its end exactly once; none is
/// left waiting.
pub proof fn lemma_every_job_runs_once<J>(size: nat, events: Seq<PoolEvent<J>>)
    requires
        size >= 1,
        PoolView::<J>::fresh(size).admits(events),
        PoolView::<J>::fresh(size).run(events).all_terminated(),
    ensures
        PoolView::<J>::fresh(size).run(events).queue.len() == 0,
        PoolView::<J>::fresh(size).run(events).delivered == jobs_of(events),
        PoolView::<J>::fresh(size).run(events).completed.to_multiset() == jobs_of(
            events,
        ).to_multiset(),
        PoolView::<J>::fresh(size).run(events).completed.len() == jobs_of(events).len(),
{
    let pool = PoolView::<J>::fresh(size);
    lemma_fresh_pool_is_idle::<J>(size);
    lemma_run_keeps_wf(pool, events);
    lemma_shutdown_drains(pool.run(events));
    assert(pool.submitted + jobs_of(events) =~= jobs_of(events));
}

/// A panic is never forgotten: however the pool is driven after a worker has
/// been brought down, that worker is still found panicked at the end, so not
/// every worker is found terminated.
pub proof fn lemma_panic_is_never_forgotten<J>(
    pool: PoolView<J>,
    worker: int,
    events: Seq<PoolEvent<J>>,
)
    requires
        pool.has_slot(worker),
        pool.workers[worker] == WorkerState::Panicked,
        pool.admits(events),
    ensures
        pool.run(events).has_slot(worker),
        pool.run(events).workers[worker] == WorkerState::Panicked,
        !pool.run(events).all_terminated(),
    decreases events.len(),
{
    if events.len() > 0 {
        let before = pool.run(events.drop_last());
        lemma_panic_is_never_forgotten(pool, worker, events.drop_last());
        lemma_ended_workers_stay(before, events.last(), worker);
    }
}

/// With the producer gone, a pool sees no more events than the work that was
/// left when it went: shutdown comes to its end, however many jobs wait.
pub proof fn lemma_shutdown_is_bounded<J>(pool: PoolView<J>, events: Seq<PoolEvent<J>>)
    requires
        !pool.open,
        pool.admits(events),
    ensures
        !pool.run(events).open,
        events.len() + pool.run(events).work_left() <= pool.work_left(),
    decreases events.len(),
{
    if events.len() > 0 {
        let before = pool.run(events.drop_last());
        lemma_shutdown_is_bounded(pool, events.drop_last());
        lemma_shutdown_makes_progress(before, events.last());
    }
}

} // verus!
