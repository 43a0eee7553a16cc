//! An executor and its runners, over any sequence of calls.

use crate::laws::history::{lemma_acted_wf, lemma_ticker_wf, Action};
use crate::laws::runners::{
    awake_with_tasks, law_new_runner_has_no_tasks, law_own_poll_keeps_awake,
    law_poll_only_robs_others, lemma_same_place,
};
use crate::laws::stealing::law_drop_leaves_others;
use crate::laws::validity::{
    law_register_keeps_valid, law_runner_drop_keeps_valid, law_runner_keeps_valid,
};
use crate::laws::wakeups::{
    attended, law_finish_attended, law_poll_attended, law_register_attended, law_runner_attended,
    law_runner_drop_attended, law_schedule_attended, law_spawn_many_attended,
    law_ticker_drop_attended, law_try_tick_attended,
};
use crate::runner::{runner_valid, RunnerView};
use crate::state::StateView;
use crate::ticker::{ticker_valid, Polled};
use vstd::prelude::*;

verus! {

/// An executor with all of its runners.
pub struct System<W> {
    /// The state of the executor.
    pub state: StateView<W>,
    /// The runners that were created and not dropped, by identifier.
    pub runners: Map<usize, RunnerView>,
}

/// A call on an executor, with what comes of it.
pub enum Event<W> {
    /// A task is scheduled.
    Schedule(u64),
    /// A task is spawned.
    Spawn(u64),
    /// Tasks are spawned.
    SpawnMany(Seq<u64>),
    /// The task under this key finishes.
    Finish(usize),
    /// A task is taken to be run.
    TryTick,
    /// The active tasks of a dropped executor are taken out.
    Drain,
    /// The oldest task of a dropped executor is taken out of the global queue.
    DropQueued,
    /// A ticker that sleeps under the first identifier is polled with this waker, and sleeps
    /// under the second one then.
    Poll(usize, W, Polled<W>, usize),
    /// A ticker that sleeps under this identifier is dropped.
    DropTicker(usize),
    /// A runner is created.
    Register(usize),
    /// The runner with this identifier is polled with this waker.
    PollRunner(usize, W, Polled<W>, RunnerView),
    /// The runner with this identifier is dropped.
    DropRunner(usize),
}

/// A new executor, without runners.
pub open spec fn new_system<W>() -> System<W> {
    System { state: StateView::initial(), runners: Map::empty() }
}

/// Whether a call on the executor `before` may leave it as it is in `after`.
pub open spec fn happens<W: Clone>(before: System<W>, event: Event<W>, after: System<W>) -> bool {
    let state = before.state;
    match event {
        Event::Schedule(task) => {
            &&& after.state == state.scheduled(task)
            &&& after.runners == before.runners
        },
        Event::Spawn(task) => {
            &&& after.state == state.spawned(task)
            &&& after.runners == before.runners
        },
        Event::SpawnMany(tasks) => {
            &&& after.state == state.spawned_many(tasks)
            &&& after.runners == before.runners
        },
        Event::Finish(key) => {
            &&& after.state == state.finished(key)
            &&& after.runners == before.runners
        },
        Event::TryTick => {
            &&& after.state == state.ticked()
            &&& after.runners == before.runners
        },
        Event::Drain => {
            &&& after.state == state.drained()
            &&& after.runners == before.runners
        },
        Event::DropQueued => {
            &&& after.state == state.without_oldest()
            &&& after.runners == before.runners
        },
        Event::Poll(sleeping, waker, polled, ticker) => {
            &&& ticker_valid(sleeping, state)
            &&& polled is Pending && sleeping == 0 ==> state.sleepers.count < usize::MAX
            &&& state.poll_outcome(sleeping, waker, polled, ticker, after.state)
            &&& after.runners == before.runners
        },
        Event::DropTicker(sleeping) => {
            &&& ticker_valid(sleeping, state)
            &&& after.state == state.ticker_dropped(sleeping)
            &&& after.runners == before.runners
        },
        Event::Register(id) => {
            &&& !state.has_runner(id)
            &&& after.state == state.with_runner(id)
            &&& after.runners == before.runners.insert(
                id,
                RunnerView { sleeping: 0, id, ticks: 0 },
            )
        },
        Event::PollRunner(id, waker, polled, next) => {
            &&& before.runners.dom().contains(id)
            &&& runner_valid(before.runners[id], state)
            &&& polled is Pending && before.runners[id].sleeping == 0 ==> state.sleepers.count
                < usize::MAX
            &&& state.runner_outcome(before.runners[id], waker, polled, next, after.state)
            &&& after.runners == before.runners.insert(id, next)
        },
        Event::DropRunner(id) => {
            &&& before.runners.dom().contains(id)
            &&& runner_valid(before.runners[id], state)
            &&& after.state == state.runner_dropped(before.runners[id])
            &&& after.runners == before.runners.remove(id)
        },
    }
}

/// What holds of an executor at any time: its state is well formed, the global queue is attended,
/// its runners are those that are registered, and one with tasks of its own is awake.
pub open spec fn sound<W>(system: System<W>) -> bool {
    &&& system.state.wf()
    &&& attended(system.state)
    &&& forall|id: usize| #[trigger]
        system.runners.dom().contains(id) <==> system.state.has_runner(id)
    &&& forall|id: usize| #[trigger]
        system.runners.dom().contains(id) ==> system.runners[id].id == id && awake_with_tasks(
            system.runners[id],
            system.state,
        )
}

/// Polling a ticker keeps a state well formed.
proof fn lemma_poll_wf<W: Clone>(
    state: StateView<W>,
    sleeping: usize,
    waker: W,
    polled: Polled<W>,
    ticker: usize,
    after: StateView<W>,
)
    requires
        state.wf(),
        ticker_valid(sleeping, state),
        polled is Pending && sleeping == 0 ==> state.sleepers.count < usize::MAX,
        state.poll_outcome(sleeping, waker, polled, ticker, after),
    ensures
        after.wf(),
{
    match polled {
        Polled::Ready(_) => {
            let popped = state.with_queue(state.queue.drop_first());
            lemma_ticker_wf(popped, sleeping);
            popped.woken(sleeping).lemma_notify();
        },
        Polled::Pending => {
            lemma_acted_wf(state, Action::Sleep(sleeping, after.sleepers.waker_of(ticker)));
        },
    }
}

/// Polling a runner keeps a state well formed.
proof fn lemma_runner_poll_wf<W: Clone>(
    state: StateView<W>,
    runner: RunnerView,
    waker: W,
    polled: Polled<W>,
    next: RunnerView,
    after: StateView<W>,
)
    requires
        state.wf(),
        runner_valid(runner, state),
        polled is Pending && runner.sleeping == 0 ==> state.sleepers.count < usize::MAX,
        state.runner_outcome(runner, waker, polled, next, after),
    ensures
        after.wf(),
{
    match polled {
        Polled::Ready(tick) => {
            let own = state.runner_position(runner.id);
            assert(0 <= own < state.local_queues.len());
            let start = choose|start: int|
                {
                    &&& 0 <= start < state.local_queues.len()
                    &&& state.search_result(own, start) == Some(tick.task)
                    &&& after == #[trigger] state.served(runner, start)
                };
            let searched = state.searched(own, start);
            state.lemma_search(own, start);
            lemma_acted_wf(state, Action::Search(own, start));
            lemma_ticker_wf(searched, runner.sleeping);
            searched.woken(runner.sleeping).lemma_notify();
            lemma_acted_wf(searched.found(runner.sleeping), Action::Refill(own));
        },
        Polled::Pending => {
            lemma_acted_wf(
                state,
                Action::Sleep(runner.sleeping, after.sleepers.waker_of(next.sleeping)),
            );
        },
    }
}

/// Where the local queues stay as they are, the runners are as awake as they were.
proof fn lemma_queues_kept<W>(before: System<W>, after: System<W>)
    requires
        sound(before),
        after.state.wf(),
        attended(after.state),
        after.runners == before.runners,
        after.state.local_queues == before.state.local_queues,
    ensures
        sound(after),
{
    assert forall|id: usize| #[trigger]
        after.runners.dom().contains(id) <==> after.state.has_runner(id) by {
        assert(before.runners.dom().contains(id) <==> before.state.has_runner(id));
        if before.state.has_runner(id) {
            let i = before.state.runner_position(id);
            assert(after.state.local_queues[i].0 == id);
        }
        if after.state.has_runner(id) {
            let i = after.state.runner_position(id);
            assert(before.state.local_queues[i].0 == id);
        }
    }
    assert forall|id: usize| #[trigger] after.runners.dom().contains(id) implies after.runners[id].id
        == id && awake_with_tasks(after.runners[id], after.state) by {
        assert(before.runners.dom().contains(id));
        lemma_same_place(before.state, after.state, id);
    }
}

/// Every call keeps an executor sound.
pub proof fn law_sound<W: Clone>(before: System<W>, event: Event<W>, after: System<W>)
    requires
        sound(before),
        happens(before, event, after),
    ensures
        sound(after),
{
    let state = before.state;
    match event {
        Event::Schedule(task) => {
            lemma_acted_wf(state, Action::Schedule(task));
            law_schedule_attended(state, task);
            lemma_queues_kept(before, after);
        },
        Event::Spawn(task) => {
            lemma_acted_wf(state, Action::Spawn(task));
            law_schedule_attended(state, task);
            lemma_queues_kept(before, after);
        },
        Event::SpawnMany(tasks) => {
            lemma_acted_wf(state, Action::SpawnMany(tasks));
            law_spawn_many_attended(state, tasks);
            lemma_queues_kept(before, after);
        },
        Event::Finish(key) => {
            lemma_acted_wf(state, Action::Finish(key));
            law_finish_attended(state, key);
            lemma_queues_kept(before, after);
        },
        Event::TryTick => {
            lemma_acted_wf(state, Action::TryTick);
            law_try_tick_attended(state);
            lemma_queues_kept(before, after);
        },
        Event::Drain => {
            lemma_acted_wf(state, Action::Drain);
            lemma_queues_kept(before, after);
        },
        Event::DropQueued => {
            lemma_acted_wf(state, Action::Pop);
            lemma_queues_kept(before, after);
        },
        Event::Poll(sleeping, waker, polled, ticker) => {
            lemma_poll_wf(state, sleeping, waker, polled, ticker, after.state);
            law_poll_attended(state, sleeping, waker, polled, ticker, after.state);
            lemma_queues_kept(before, after);
        },
        Event::DropTicker(sleeping) => {
            lemma_acted_wf(state, Action::DropTicker(sleeping));
            law_ticker_drop_attended(state, sleeping);
            lemma_queues_kept(before, after);
        },
        Event::Register(id) => {
            lemma_acted_wf(state, Action::Register(id));
            law_register_attended(state, id);
            law_register_keeps_valid(state, id);
            law_new_runner_has_no_tasks(state, id);
            assert forall|other: usize| #[trigger]
                after.runners.dom().contains(other) implies after.runners[other].id == other
                && awake_with_tasks(after.runners[other], after.state) by {
                if other != id {
                    assert(before.runners.dom().contains(other));
                    lemma_same_place(state, after.state, other);
                }
            }
        },
        Event::PollRunner(id, waker, polled, next) => {
            let runner = before.runners[id];
            lemma_runner_poll_wf(state, runner, waker, polled, next, after.state);
            law_runner_attended(state, runner, waker, polled, next, after.state);
            law_runner_keeps_valid(state, runner, waker, polled, next, after.state);
            law_own_poll_keeps_awake(state, runner, waker, polled, next, after.state);
            assert(next.id == id);
            assert forall|other: usize| #[trigger]
                after.runners.dom().contains(other) implies after.runners[other].id == other
                && awake_with_tasks(after.runners[other], after.state) by {
                if other != id {
                    assert(before.runners.dom().contains(other));
                    law_poll_only_robs_others(
                        state,
                        runner,
                        waker,
                        polled,
                        next,
                        after.state,
                        before.runners[other],
                    );
                }
            }
            assert forall|other: usize| #[trigger]
                after.runners.dom().contains(other) <==> after.state.has_runner(other) by {
                assert(before.runners.dom().contains(other) <==> state.has_runner(other));
            }
        },
        Event::DropRunner(id) => {
            let runner = before.runners[id];
            lemma_acted_wf(state, Action::DropRunner(runner));
            law_runner_drop_attended(state, runner);
            law_runner_drop_keeps_valid(state, runner);
            law_drop_leaves_others(state, runner);
            assert forall|other: usize| #[trigger]
                after.runners.dom().contains(other) implies after.runners[other].id == other
                && awake_with_tasks(after.runners[other], after.state) by {
                assert(before.runners.dom().contains(other));
                assert(state.has_runner(other) && other != runner.id);
                assert(after.state.has_runner(other));
            }
            assert forall|other: usize| #[trigger]
                after.runners.dom().contains(other) <==> after.state.has_runner(other) by {
                assert(before.runners.dom().contains(other) <==> state.has_runner(other));
            }
        },
    }
}

/// Whether each executor in a sequence comes of the one before it by a call, and the first one is
/// new.
pub open spec fn is_run<W: Clone>(systems: Seq<System<W>>, events: Seq<Event<W>>) -> bool {
    &&& systems.len() == events.len() + 1
    &&& systems[0] == new_system::<W>()
    &&& forall|i: int|
        0 <= i < events.len() ==> happens(systems[i], #[trigger] events[i], systems[i + 1])
}

/// After any sequence of calls on a new executor, it is sound.
proof fn lemma_always_sound<W: Clone>(systems: Seq<System<W>>, events: Seq<Event<W>>, i: int)
    requires
        is_run(systems, events),
        0 <= i < systems.len(),
    ensures
        sound(systems[i]),
    decreases i,
{
    if i > 0 {
        lemma_always_sound(systems, events, i - 1);
        law_sound(systems[i - 1], events[i - 1], systems[i]);
    }
}

/// After any sequence of calls on a new executor, no task waits for nobody: if a task waits in the
/// global queue, a sleeping ticker is notified or none is sleeping, and if a task waits in the
/// queue of a runner, that runner is awake.
pub proof fn law_no_task_waits_for_nobody<W: Clone>(
    systems: Seq<System<W>>,
    events: Seq<Event<W>>,
    i: int,
)
    requires
        is_run(systems, events),
        0 <= i < systems.len(),
    ensures
        systems[i].state.queue.len() > 0 ==> systems[i].state.notified,
        forall|j: int|
            0 <= j < systems[i].state.local_queues.len() ==> {
                let (id, tasks) = #[trigger] systems[i].state.local_queues[j];
                tasks.len() > 0 ==> systems[i].runners.dom().contains(id)
                    && systems[i].runners[id].sleeping == 0
            },
{
    lemma_always_sound(systems, events, i);
    let system = systems[i];
    assert forall|j: int| 0 <= j < system.state.local_queues.len() implies ({
        let (id, tasks) = #[trigger] system.state.local_queues[j];
        tasks.len() > 0 ==> system.runners.dom().contains(id) && system.runners[id].sleeping == 0
    }) by {
        let id = system.state.local_queues[j].0;
        system.state.lemma_runner_position(j);
        assert(system.runners.dom().contains(id));
        assert(awake_with_tasks(system.runners[id], system.state));
    }
}

} // verus!
