//! Tasks: none is lost and none is run twice.

use crate::queue::steal_count;
use crate::run::{RunStep, RunView};
use crate::runner::{lemma_victim, runner_valid, RunnerView};
use crate::state::{StateView, LOCAL_QUEUE_CAPACITY};
use crate::ticker::Polled;
use vstd::multiset::Multiset;
use vstd::prelude::*;
use vstd::seq_lib::*;

verus! {

/// The tasks in the local queues, each as often as it is queued.
pub open spec fn local_waiting(queues: Seq<(usize, Seq<u64>)>) -> Multiset<u64>
    decreases queues.len(),
{
    if queues.len() == 0 {
        Multiset::empty()
    } else {
        local_waiting(queues.drop_last()).add(queues.last().1.to_multiset())
    }
}

/// The tasks that wait in any queue, each as often as it is queued.
pub open spec fn waiting<W>(state: StateView<W>) -> Multiset<u64> {
    state.queue.to_multiset().add(local_waiting(state.local_queues))
}

/// Other tasks in one local queue take the place of those that were there.
proof fn lemma_local_update(queues: Seq<(usize, Seq<u64>)>, i: int, tasks: Seq<u64>)
    requires
        0 <= i < queues.len(),
    ensures
        forall|task: u64| #[trigger]
            local_waiting(queues.update(i, (queues[i].0, tasks))).count(task)
                + queues[i].1.to_multiset().count(task) == local_waiting(queues).count(task)
                + tasks.to_multiset().count(task),
    decreases queues.len(),
{
    let updated = queues.update(i, (queues[i].0, tasks));
    if i == queues.len() - 1 {
        assert(updated.drop_last() =~= queues.drop_last());
    } else {
        lemma_local_update(queues.drop_last(), i, tasks);
        assert(updated.drop_last() =~= queues.drop_last().update(i, (queues[i].0, tasks)));
        assert(local_waiting(updated) == local_waiting(updated.drop_last()).add(
            queues.last().1.to_multiset(),
        ));
    }
}

/// Without one local queue, its tasks are missing.
proof fn lemma_local_remove(queues: Seq<(usize, Seq<u64>)>, i: int)
    requires
        0 <= i < queues.len(),
    ensures
        forall|task: u64| #[trigger]
            local_waiting(queues.remove(i)).count(task) + queues[i].1.to_multiset().count(task)
                == local_waiting(queues).count(task),
    decreases queues.len(),
{
    if i == queues.len() - 1 {
        assert(queues.remove(i) =~= queues.drop_last());
    } else {
        lemma_local_remove(queues.drop_last(), i);
        assert(queues.remove(i).drop_last() =~= queues.drop_last().remove(i));
        assert(local_waiting(queues.remove(i)) == local_waiting(queues.drop_last().remove(i)).add(
            queues.last().1.to_multiset(),
        ));
    }
}

/// A sequence of tasks holds what its two parts hold.
proof fn lemma_split(tasks: Seq<u64>, at: int)
    requires
        0 <= at <= tasks.len(),
    ensures
        forall|task: u64| #[trigger]
            tasks.to_multiset().count(task) == tasks.take(at).to_multiset().count(task)
                + tasks.skip(at).to_multiset().count(task),
{
    assert(tasks =~= tasks.take(at) + tasks.skip(at));
    lemma_multiset_commutative(tasks.take(at), tasks.skip(at));
}

/// A sequence of tasks holds the first one and the rest.
proof fn lemma_first(tasks: Seq<u64>)
    requires
        tasks.len() > 0,
    ensures
        tasks.to_multiset() == tasks.drop_first().to_multiset().insert(tasks[0]),
{
    broadcast use group_to_multiset_ensures;

    assert(tasks =~= seq![tasks[0]] + tasks.drop_first());
    lemma_multiset_commutative(seq![tasks[0]], tasks.drop_first());
    assert(seq![tasks[0]] =~= Seq::<u64>::empty().push(tasks[0]));
    assert(tasks.to_multiset() =~= tasks.drop_first().to_multiset().insert(tasks[0]));
}

/// Stealing from the global queue moves tasks, and neither adds nor loses any.
pub proof fn law_refill_keeps_tasks<W>(state: StateView<W>, own: int)
    requires
        0 <= own < state.local_queues.len(),
    ensures
        waiting(state.refilled(own)) == waiting(state),
{
    let tasks = state.local_queues[own].1;
    let count = steal_count(state.queue.len(), tasks.len(), Some(LOCAL_QUEUE_CAPACITY)) as int;
    lemma_split(state.queue, count);
    lemma_multiset_commutative(tasks, state.queue.take(count));
    lemma_local_update(state.local_queues, own, tasks + state.queue.take(count));
    assert(waiting(state.refilled(own)) =~= waiting(state));
}

/// A search takes out the task that it comes back with, and no other.
pub proof fn law_search_takes_one_task<W>(state: StateView<W>, own: int, start: int)
    requires
        0 <= own < state.local_queues.len(),
        0 <= start < state.local_queues.len(),
    ensures
        waiting(state) == match state.search_result(own, start) {
            Some(task) => waiting(state.searched(own, start)).insert(task),
            None => waiting(state.searched(own, start)),
        },
{
    let queues = state.local_queues;
    if queues[own].1.len() > 0 {
        lemma_first(queues[own].1);
        lemma_local_update(queues, own, queues[own].1.drop_first());
        assert(waiting(state) =~= waiting(state.searched(own, start)).insert(queues[own].1[0]));
    } else if state.queue.len() > 0 {
        lemma_first(state.queue);
        let rest = state.with_queue(state.queue.drop_first());
        law_refill_keeps_tasks(rest, own);
        assert(waiting(state) =~= waiting(rest).insert(state.queue[0]));
    } else {
        lemma_victim(queues, own, start, 0);
        match state.victim(own, start) {
            Some(from) => {
                let tasks = queues[from].1;
                let count = steal_count(tasks.len(), 0, Some(LOCAL_QUEUE_CAPACITY)) as int;
                let left = state.with_local(from, tasks.skip(count));
                lemma_split(tasks, count);
                lemma_first(tasks.take(count));
                assert(tasks.take(count).drop_first() =~= tasks.subrange(1, count));
                lemma_local_update(queues, from, tasks.skip(count));
                lemma_local_update(left.local_queues, own, tasks.subrange(1, count));
                left.local_queues[own].1.to_multiset_ensures();
                assert forall|task: u64| #[trigger]
                    waiting(state).count(task) == waiting(
                        state.searched(own, start),
                    ).insert(tasks[0]).count(task) by {
                    assert(local_waiting(left.local_queues).count(task) + tasks.to_multiset().count(
                        task,
                    ) == local_waiting(queues).count(task) + tasks.skip(count).to_multiset().count(
                        task,
                    ));
                    assert(tasks.take(count).to_multiset().count(task) == tasks.subrange(
                        1,
                        count,
                    ).to_multiset().insert(tasks[0]).count(task));
                    assert(left.local_queues[own].1.to_multiset().count(task) == 0);
                }
                assert(waiting(state) =~= waiting(state.searched(own, start)).insert(tasks[0]));
            },
            None => {},
        }
    }
}

/// No task in any local queue is no task at all.
proof fn lemma_local_empty(queues: Seq<(usize, Seq<u64>)>)
    ensures
        local_waiting(queues).len() == 0 <==> forall|i: int|
            0 <= i < queues.len() ==> (#[trigger] queues[i]).1.len() == 0,
    decreases queues.len(),
{
    if queues.len() > 0 {
        let rest = queues.drop_last();
        lemma_local_empty(rest);
        queues.last().1.to_multiset_ensures();
        assert(forall|i: int| 0 <= i < rest.len() ==> rest[i] == queues[i]);
        if local_waiting(queues).len() == 0 {
            assert forall|i: int| 0 <= i < queues.len() implies (
            #[trigger] queues[i]).1.len() == 0 by {
                assert(i < rest.len() ==> rest[i].1.len() == 0);
            }
        }
    }
}

/// A runner comes back without a task only if none waits anywhere: everything that was scheduled
/// has been taken to be run.
pub proof fn law_idle_means_nothing_waits<W>(state: StateView<W>)
    ensures
        state.idle() <==> waiting(state).len() == 0,
{
    lemma_local_empty(state.local_queues);
    state.queue.to_multiset_ensures();
}

/// A task that is scheduled or spawned is queued once more, and no other is.
pub proof fn law_schedule_adds_one_task<W>(state: StateView<W>, task: u64)
    ensures
        waiting(state.scheduled(task)) == waiting(state).insert(task),
        waiting(state.spawned(task)) == waiting(state).insert(task),
{
    to_multiset_build(state.queue, task);
    assert(waiting(state.scheduled(task)) =~= waiting(state).insert(task));
    assert(waiting(state.spawned(task)) =~= waiting(state).insert(task));
}

/// Spawning many tasks queues each of them once more, and no other.
pub proof fn law_spawn_many_adds_tasks<W>(state: StateView<W>, tasks: Seq<u64>)
    ensures
        waiting(state.spawned_many(tasks)) == waiting(state).add(tasks.to_multiset()),
{
    lemma_multiset_commutative(state.queue, tasks);
    tasks.to_multiset_ensures();
    assert(waiting(state.spawned_many(tasks)) =~= waiting(state).add(tasks.to_multiset()));
}

/// Attempting to run a task takes out that task, and no other.
pub proof fn law_try_tick_takes_one_task<W>(state: StateView<W>)
    ensures
        waiting(state) == if state.queue.len() > 0 {
            waiting(state.ticked()).insert(state.queue[0])
        } else {
            waiting(state.ticked())
        },
{
    if state.queue.len() > 0 {
        lemma_first(state.queue);
        assert(waiting(state) =~= waiting(state.ticked()).insert(state.queue[0]));
    }
}

/// Polling a ticker takes out the task that it comes back with, and no other.
pub proof fn law_poll_takes_one_task<W: Clone>(
    state: StateView<W>,
    sleeping: usize,
    waker: W,
    polled: Polled<W>,
    ticker: usize,
    after: StateView<W>,
)
    requires
        state.poll_outcome(sleeping, waker, polled, ticker, after),
    ensures
        waiting(state) == match polled {
            Polled::Ready(tick) => waiting(after).insert(tick.task),
            Polled::Pending => waiting(after),
        },
{
    if state.queue.len() > 0 {
        lemma_first(state.queue);
        assert(waiting(state) =~= waiting(after).insert(state.queue[0]));
    }
}

/// Polling a runner takes out the task that it comes back with, and no other, from whichever
/// queue it had.
pub proof fn law_runner_takes_one_task<W: Clone>(
    state: StateView<W>,
    runner: RunnerView,
    waker: W,
    polled: Polled<W>,
    next: RunnerView,
    after: StateView<W>,
)
    requires
        runner_valid(runner, state),
        state.runner_outcome(runner, waker, polled, next, after),
    ensures
        waiting(state) == match polled {
            Polled::Ready(tick) => waiting(after).insert(tick.task),
            Polled::Pending => waiting(after),
        },
{
    if let Polled::Ready(tick) = polled {
        let own = state.runner_position(runner.id);
        assert(0 <= own < state.local_queues.len());
        let start = choose|start: int|
            {
                &&& 0 <= start < state.local_queues.len()
                &&& state.search_result(own, start) == Some(tick.task)
                &&& after == #[trigger] state.served(runner, start)
            };
        state.lemma_search(own, start);
        law_search_takes_one_task(state, own, start);
        law_refill_keeps_tasks(state.searched(own, start).found(runner.sleeping), own);
    }
}

/// A step of a running executor takes out the task that it gives, and no other.
pub proof fn law_run_takes_one_task<W: Clone>(
    state: StateView<W>,
    run: RunView,
    waker: W,
    step: RunStep<W>,
    next: RunView,
    after: StateView<W>,
)
    requires
        runner_valid(run.runner, state),
        state.run_outcome(run, waker, step, next, after),
    ensures
        waiting(state) == match step {
            RunStep::Run(tick) => waiting(after).insert(tick.task),
            RunStep::Yield | RunStep::Pending => waiting(after),
        },
{
    match step {
        RunStep::Run(tick) => {
            law_runner_takes_one_task(
                state,
                run.runner,
                waker,
                Polled::Ready(tick),
                next.runner,
                after,
            );
        },
        RunStep::Yield => {},
        RunStep::Pending => {},
    }
}

/// A runner that is registered brings no task.
pub proof fn law_register_keeps_tasks<W>(state: StateView<W>, id: usize)
    ensures
        waiting(state.with_runner(id)) == waiting(state),
{
    let more = state.with_runner(id).local_queues;
    assert(more.drop_last() =~= state.local_queues);
    Seq::<u64>::empty().to_multiset_ensures();
    assert(waiting(state.with_runner(id)) =~= waiting(state));
}

/// A runner that is dropped loses no task.
pub proof fn law_runner_drop_keeps_tasks<W>(state: StateView<W>, runner: RunnerView)
    requires
        runner_valid(runner, state),
    ensures
        waiting(state.runner_dropped(runner)) == waiting(state),
{
    let own = state.runner_position(runner.id);
    let tasks = state.local_queues[own].1;
    assert(0 <= own < state.local_queues.len());
    lemma_local_remove(state.local_queues, own);
    lemma_multiset_commutative(state.queue, tasks);
    tasks.to_multiset_ensures();
    assert(waiting(state.runner_dropped(runner)) =~= waiting(state));
}

/// Sleeping, waking up and finishing tasks leaves the queues alone.
pub proof fn law_sleeping_keeps_tasks<W>(
    state: StateView<W>,
    sleeping: usize,
    waker: W,
    key: usize,
)
    ensures
        waiting(state.slept(sleeping, waker)) == waiting(state),
        waiting(state.woken(sleeping)) == waiting(state),
        waiting(state.after_notify()) == waiting(state),
        waiting(state.ticker_dropped(sleeping)) == waiting(state),
        waiting(state.finished(key)) == waiting(state),
        waiting(state.drained()) == waiting(state),
{
}

/// The state after `n` attempts to run a task.
pub open spec fn ticked_times<W>(state: StateView<W>, n: nat) -> StateView<W>
    decreases n,
{
    if n == 0 {
        state
    } else {
        ticked_times(state, (n - 1) as nat).ticked()
    }
}

/// Tasks are run in the order in which they were scheduled: a task has its turn after those that
/// were in the global queue before it.
pub proof fn law_first_in_first_out<W>(state: StateView<W>, task: u64, n: nat)
    requires
        n <= state.queue.len(),
    ensures
        ticked_times(state.scheduled(task), n).queue == state.queue.push(task).skip(n as int),
        ticked_times(state.scheduled(task), n).queue[0] == if n < state.queue.len() {
            state.queue[n as int]
        } else {
            task
        },
    decreases n,
{
    let queue = state.queue.push(task);
    if n == 0 {
        assert(queue.skip(0) =~= queue);
    } else {
        law_first_in_first_out(state, task, (n - 1) as nat);
        assert(queue.skip(n - 1).drop_first() =~= queue.skip(n as int));
    }
}

} // verus!
