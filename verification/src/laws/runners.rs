//! Runners: one with tasks in its own queue is awake.
//!
//! Tickers that are not runners do not look into local queues, so a notification does not help
//! the tasks there. It does not have to: a runner falls asleep only when no queue has a task, and
//! nobody else puts tasks into its queue.

use crate::laws::history::{acted, after_actions, all_possible, law_keeps_wf, possible, Action};
use crate::laws::stealing::{law_drop_leaves_others, law_search_leaves_others};
use crate::runner::{runner_valid, RunnerView};
use crate::state::StateView;
use crate::ticker::Polled;
use vstd::prelude::*;

verus! {

/// The tasks in the local queue of the runner `id`.
pub open spec fn own_tasks<W>(state: StateView<W>, id: usize) -> Seq<u64> {
    state.local_queues[state.runner_position(id)].1
}

/// If a runner has tasks in its own queue, it is awake.
pub open spec fn awake_with_tasks<W>(runner: RunnerView, state: StateView<W>) -> bool {
    own_tasks(state, runner.id).len() > 0 ==> runner.sleeping == 0
}

/// Whether the runner `id` stays registered and at most loses tasks, oldest first.
pub open spec fn only_robbed<W>(state: StateView<W>, after: StateView<W>, id: usize) -> bool {
    let tasks = own_tasks(state, id);
    let left = own_tasks(after, id);
    &&& after.has_runner(id)
    &&& left.len() <= tasks.len()
    &&& left == tasks.skip(tasks.len() - left.len())
}

/// If the runner `id` is at the same place, with the same tasks, it was not robbed.
pub(crate) proof fn lemma_same_place<W>(state: StateView<W>, after: StateView<W>, id: usize)
    requires
        after.wf(),
        state.has_runner(id),
        state.runner_position(id) < after.local_queues.len(),
        after.local_queues[state.runner_position(id)] == state.local_queues[state.runner_position(
            id,
        )],
    ensures
        only_robbed(state, after, id),
        own_tasks(after, id) == own_tasks(state, id),
{
    let i = state.runner_position(id);
    assert(0 <= i < state.local_queues.len() && state.local_queues[i].0 == id);
    after.lemma_runner_position(i);
    assert(own_tasks(state, id).skip(0) =~= own_tasks(state, id));
}

/// A new runner has no tasks of its own.
pub proof fn law_new_runner_has_no_tasks<W>(state: StateView<W>, id: usize)
    requires
        !state.has_runner(id),
    ensures
        own_tasks(state.with_runner(id), id) == Seq::<u64>::empty(),
{
    let after = state.with_runner(id);
    let n = state.local_queues.len() as int;
    assert(after.local_queues[n].0 == id);
    let i = after.runner_position(id);
    assert(0 <= i < after.local_queues.len() && after.local_queues[i].0 == id);
    if i < n {
        assert(state.local_queues[i].0 == id);
    }
}

/// A runner that was polled is awake if it has tasks in its own queue: if it waits, there are no
/// tasks in any queue.
pub proof fn law_own_poll_keeps_awake<W: Clone>(
    state: StateView<W>,
    runner: RunnerView,
    waker: W,
    polled: Polled<W>,
    next: RunnerView,
    after: StateView<W>,
)
    requires
        runner_valid(runner, state),
        state.runner_outcome(runner, waker, polled, next, after),
    ensures
        awake_with_tasks(next, after),
        polled is Pending ==> own_tasks(after, next.id).len() == 0,
{
    if polled is Pending {
        let i = state.runner_position(runner.id);
        assert(0 <= i < state.local_queues.len() && state.local_queues[i].1.len() == 0);
        assert(after.local_queues == state.local_queues);
    }
}

/// Polling a runner only takes tasks out of the queues of the others.
pub proof fn law_poll_only_robs_others<W: Clone>(
    state: StateView<W>,
    runner: RunnerView,
    waker: W,
    polled: Polled<W>,
    next: RunnerView,
    after: StateView<W>,
    other: RunnerView,
)
    requires
        state.wf(),
        after.wf(),
        runner_valid(runner, state),
        state.runner_outcome(runner, waker, polled, next, after),
        state.has_runner(other.id),
        other.id != runner.id,
    ensures
        only_robbed(state, after, other.id),
        awake_with_tasks(other, state) ==> awake_with_tasks(other, after),
{
    let own = state.runner_position(runner.id);
    let i = state.runner_position(other.id);
    assert(0 <= own < state.local_queues.len() && state.local_queues[own].0 == runner.id);
    assert(0 <= i < state.local_queues.len() && state.local_queues[i].0 == other.id);
    match polled {
        Polled::Ready(tick) => {
            let start = choose|start: int|
                {
                    &&& 0 <= start < state.local_queues.len()
                    &&& state.search_result(own, start) == Some(tick.task)
                    &&& after == #[trigger] state.served(runner, start)
                };
            law_search_leaves_others(state, own, start, i);
            assert(after.local_queues[i] == state.searched(own, start).local_queues[i]);
            after.lemma_runner_position(i);
        },
        Polled::Pending => {
            lemma_same_place(state, after, other.id);
        },
    }
}

/// Polling a ticker leaves the queues of runners alone.
pub proof fn law_ticker_poll_robs_nobody<W: Clone>(
    state: StateView<W>,
    sleeping: usize,
    waker: W,
    polled: Polled<W>,
    ticker: usize,
    after: StateView<W>,
    runner: RunnerView,
)
    requires
        state.poll_outcome(sleeping, waker, polled, ticker, after),
    ensures
        own_tasks(after, runner.id) == own_tasks(state, runner.id),
        awake_with_tasks(runner, state) ==> awake_with_tasks(runner, after),
{
    assert(after.local_queues == state.local_queues);
}

/// Whether an action is not one of the runner `id`.
pub open spec fn by_other_runners<W>(state: StateView<W>, action: Action<W>, id: usize) -> bool {
    match action {
        Action::Search(own, _) => own != state.runner_position(id),
        Action::Refill(own) => own != state.runner_position(id),
        Action::DropRunner(runner) => runner.id != id,
        _ => true,
    }
}

/// Whether none of the actions of a sequence is one of the runner `id`.
pub open spec fn all_by_other_runners<W>(
    state: StateView<W>,
    actions: Seq<Action<W>>,
    id: usize,
) -> bool
    decreases actions.len(),
{
    actions.len() > 0 ==> {
        &&& all_by_other_runners(state, actions.drop_last(), id)
        &&& by_other_runners(after_actions(state, actions.drop_last()), actions.last(), id)
    }
}

/// An action of others at most takes tasks out of the queue of the runner `id`.
proof fn lemma_acted_by_other_runners<W>(state: StateView<W>, action: Action<W>, id: usize)
    requires
        state.wf(),
        acted(state, action).wf(),
        possible(state, action),
        by_other_runners(state, action, id),
        state.has_runner(id),
    ensures
        only_robbed(state, acted(state, action), id),
{
    let i = state.runner_position(id);
    let after = acted(state, action);
    assert(0 <= i < state.local_queues.len() && state.local_queues[i].0 == id);
    match action {
        Action::Search(own, start) => {
            law_search_leaves_others(state, own, start, i);
            after.lemma_runner_position(i);
        },
        Action::DropRunner(runner) => {
            law_drop_leaves_others(state, runner);
            assert(after.has_runner(id));
            assert(own_tasks(state, id).skip(0) =~= own_tasks(state, id));
        },
        _ => {
            assert(after.local_queues[i] == state.local_queues[i]);
            lemma_same_place(state, after, id);
        },
    }
}

/// Whatever others do, they only take tasks out of the queue of a runner, so if it was awake with
/// tasks of its own, it is so still.
pub proof fn law_others_keep_awake<W>(
    state: StateView<W>,
    actions: Seq<Action<W>>,
    runner: RunnerView,
)
    requires
        state.wf(),
        all_possible(state, actions),
        all_by_other_runners(state, actions, runner.id),
        state.has_runner(runner.id),
    ensures
        only_robbed(state, after_actions(state, actions), runner.id),
        awake_with_tasks(runner, state) ==> awake_with_tasks(
            runner,
            after_actions(state, actions),
        ),
    decreases actions.len(),
{
    if actions.len() == 0 {
        lemma_same_place(state, state, runner.id);
    } else {
        let before = after_actions(state, actions.drop_last());
        let after = after_actions(state, actions);
        law_others_keep_awake(state, actions.drop_last(), runner);
        law_keeps_wf(state, actions.drop_last());
        law_keeps_wf(state, actions);
        lemma_acted_by_other_runners(before, actions.last(), runner.id);
        let tasks = own_tasks(state, runner.id);
        let left = own_tasks(after, runner.id);
        assert(left =~= tasks.skip(tasks.len() - left.len()));
    }
}

} // verus!
