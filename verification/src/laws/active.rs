//! Active tasks: those that were spawned and have not finished.

use crate::active::{occupied, ActiveView};
use crate::run::{RunStep, RunView};
use crate::runner::RunnerView;
use crate::state::StateView;
use crate::ticker::Polled;
use vstd::prelude::*;
use vstd::seq_lib::*;

verus! {

/// A task in a slot that was vacant is one more task.
proof fn lemma_occupy(slots: Seq<Option<u64>>, i: int, task: u64)
    requires
        0 <= i < slots.len(),
        slots[i] is None,
    ensures
        occupied(slots.update(i, Some(task))).to_multiset() == occupied(slots).to_multiset().insert(
            task,
        ),
        occupied(slots.update(i, Some(task))).len() == occupied(slots).len() + 1,
    decreases slots.len(),
{
    broadcast use group_to_multiset_ensures;

    let after = slots.update(i, Some(task));
    if i == slots.len() - 1 {
        assert(after.drop_last() =~= slots.drop_last());
    } else {
        lemma_occupy(slots.drop_last(), i, task);
        assert(after.drop_last() =~= slots.drop_last().update(i, Some(task)));
    }
    assert(occupied(after).to_multiset() =~= occupied(slots).to_multiset().insert(task));
}

/// Vacant slots hold no task.
pub(crate) proof fn lemma_occupied_len(slots: Seq<Option<u64>>)
    ensures
        occupied(slots).len() == 0 <==> forall|i: int|
            0 <= i < slots.len() ==> (#[trigger] slots[i]) is None,
    decreases slots.len(),
{
    if slots.len() > 0 {
        let rest = slots.drop_last();
        lemma_occupied_len(rest);
        assert(forall|i: int| 0 <= i < rest.len() ==> rest[i] == slots[i]);
        if occupied(slots).len() == 0 {
            assert forall|i: int| 0 <= i < slots.len() implies (#[trigger] slots[i]) is None by {
                assert(i < rest.len() ==> rest[i] is None);
            }
        }
    }
}

/// An executor is empty exactly if no key has an active task.
pub proof fn law_is_empty(active: ActiveView)
    requires
        active.wf(),
        active.slots.len() <= usize::MAX + 1,
    ensures
        active.tasks().len() == 0 <==> forall|key: usize| (#[trigger] active.get(key)) is None,
{
    lemma_occupied_len(active.slots);
    if forall|key: usize| (#[trigger] active.get(key)) is None {
        assert forall|i: int| 0 <= i < active.slots.len() implies (#[trigger] active.slots[i])
            is None by {
            assert(active.get(i as usize) is None);
        }
    }
    if active.tasks().len() == 0 {
        assert forall|key: usize| (#[trigger] active.get(key)) is None by {
            if key < active.slots.len() {
                assert(active.slots[key as int] is None);
            }
        }
    }
}

/// Spawning a task makes it active, beside those that were, so the executor is not empty.
pub proof fn law_spawn_activates(active: ActiveView, task: u64)
    requires
        active.wf(),
    ensures
        active.inserted(task).tasks().to_multiset() == active.tasks().to_multiset().insert(task),
        active.inserted(task).tasks().len() == active.tasks().len() + 1,
{
    broadcast use group_to_multiset_ensures;

    if active.vacant.len() == 0 {
        assert(active.slots.push(Some(task)).drop_last() =~= active.slots);
    } else {
        assert(active.vacant[active.vacant.len() - 1] < active.slots.len());
        lemma_occupy(active.slots, active.next_key(), task);
    }
}

/// Finishing a task makes it inactive, and only that one. Finishing it again does nothing.
pub proof fn law_finish_deactivates(active: ActiveView, key: usize)
    requires
        active.wf(),
    ensures
        active.get(key) matches Some(task) ==> {
            &&& active.tasks().to_multiset() == active.removed(key).tasks().to_multiset().insert(
                task,
            )
            &&& active.tasks().len() == active.removed(key).tasks().len() + 1
        },
        active.get(key) is None ==> active.removed(key) == active,
        active.removed(key).removed(key) == active.removed(key),
{
    broadcast use group_to_multiset_ensures;

    active.lemma_removed(key);
    if let Some(task) = active.get(key) {
        let after = active.slots.update(key as int, None);
        lemma_occupy(after, key as int, task);
        assert(after.update(key as int, Some(task)) =~= active.slots);
    }
}

/// A task that is spawned and finishes leaves no trace: the same tasks are active under the same
/// keys, and its key is handed out next.
pub proof fn law_spawn_then_finish(active: ActiveView, task: u64, key: usize)
    requires
        active.wf(),
        key == active.next_key(),
    ensures
        ({
            let after = active.inserted(task).removed(key);
            &&& after.tasks() == active.tasks()
            &&& after.next_key() == active.next_key()
            &&& forall|k: usize| #[trigger] after.get(k) == active.get(k)
        }),
{
    let after = active.inserted(task).removed(key);
    active.lemma_inserted(task);
    active.inserted(task).lemma_removed(key);
    assert(active.inserted(task).get(key) == Some(task));
    assert forall|k: usize| #[trigger] after.get(k) == active.get(k) by {
        if k != key {
            assert(active.inserted(task).get(k) == active.get(k));
        }
    }
    if active.vacant.len() == 0 {
        assert(after.slots.drop_last() =~= active.slots);
    } else {
        assert(after.slots =~= active.slots);
    }
}

/// Nothing but spawning, finishing and dropping the executor changes which tasks are active:
/// neither scheduling nor running them, nor what tickers and runners do.
pub proof fn law_active_only_changes_by_spawn_and_finish<W>(
    state: StateView<W>,
    task: u64,
    sleeping: usize,
    waker: W,
    runner: RunnerView,
    own: int,
    start: int,
    id: usize,
)
    ensures
        state.scheduled(task).active == state.active,
        state.ticked().active == state.active,
        state.without_oldest().active == state.active,
        state.after_notify().active == state.active,
        state.slept(sleeping, waker).active == state.active,
        state.woken(sleeping).active == state.active,
        state.found(sleeping).active == state.active,
        state.ticker_dropped(sleeping).active == state.active,
        state.with_runner(id).active == state.active,
        state.searched(own, start).active == state.active,
        state.refilled(own).active == state.active,
        state.runner_dropped(runner).active == state.active,
{
}

/// Polling a ticker, whatever comes of it, leaves the active tasks alone.
pub proof fn law_poll_keeps_active<W: Clone>(
    state: StateView<W>,
    sleeping: usize,
    waker: W,
    polled: Polled<W>,
    ticker: usize,
    after: StateView<W>,
)
    requires
        state.poll_outcome(sleeping, waker, polled, ticker, after),
    ensures
        after.active == state.active,
{
}

/// Polling a runner, whatever comes of it, leaves the active tasks alone.
pub proof fn law_runner_keeps_active<W: Clone>(
    state: StateView<W>,
    runner: RunnerView,
    waker: W,
    polled: Polled<W>,
    next: RunnerView,
    after: StateView<W>,
)
    requires
        state.runner_outcome(runner, waker, polled, next, after),
    ensures
        after.active == state.active,
{
}

/// A step of a running executor, whatever comes of it, leaves the active tasks alone.
pub proof fn law_run_keeps_active<W: Clone>(
    state: StateView<W>,
    run: RunView,
    waker: W,
    step: RunStep<W>,
    next: RunView,
    after: StateView<W>,
)
    requires
        state.run_outcome(run, waker, step, next, after),
    ensures
        after.active == state.active,
{
}

} // verus!
