//! An executor after any sequence of actions, by any number of tickers, runners and other
//! threads, one after the other.

use crate::active::ActiveView;
use crate::laws::active::lemma_occupied_len;
use crate::laws::sleeping::{law_notified, law_others_stay_asleep};
use crate::laws::spawning::lemma_inserted_many_wf;
use crate::runner::{lemma_victim, runner_valid, RunnerView};
use crate::state::StateView;
use crate::ticker::{ticker_valid, Step};
use vstd::prelude::*;

verus! {

/// Something that happens to the state of an executor.
pub enum Action<W> {
    /// A task is pushed into the global queue, before anyone is notified.
    Push(u64),
    /// The oldest task is taken out of the global queue, before anyone is notified.
    Pop,
    /// A sleeping ticker is notified.
    Notify,
    /// A task is scheduled.
    Schedule(u64),
    /// A task is spawned.
    Spawn(u64),
    /// Tasks are spawned.
    SpawnMany(Seq<u64>),
    /// The task under this key finishes.
    Finish(usize),
    /// A task is taken to be run.
    TryTick,
    /// A ticker, which may sleep under this identifier already, falls asleep with this waker.
    Sleep(usize, W),
    /// A ticker, which may sleep under this identifier, wakes up.
    Wake(usize),
    /// A ticker, which may sleep under this identifier, is dropped.
    DropTicker(usize),
    /// A runner is registered under this identifier.
    Register(usize),
    /// The runner at the first position searches for a task, from the second position on.
    Search(int, int),
    /// The runner at this position steals from the global queue.
    Refill(int),
    /// A runner is dropped.
    DropRunner(RunnerView),
    /// The active tasks are taken out, because the executor is dropped.
    Drain,
}

/// Whether an action may happen.
pub open spec fn possible<W>(state: StateView<W>, action: Action<W>) -> bool {
    match action {
        Action::Sleep(sleeping, _) => {
            &&& ticker_valid(sleeping, state)
            &&& sleeping == 0 ==> state.sleepers.count < usize::MAX
        },
        Action::Wake(sleeping) => ticker_valid(sleeping, state),
        Action::DropTicker(sleeping) => ticker_valid(sleeping, state),
        Action::Register(id) => !state.has_runner(id),
        Action::Search(own, start) => {
            &&& 0 <= own < state.local_queues.len()
            &&& 0 <= start < state.local_queues.len()
        },
        Action::Refill(own) => 0 <= own < state.local_queues.len(),
        Action::DropRunner(runner) => runner_valid(runner, state),
        _ => true,
    }
}

/// The state after an action.
pub open spec fn acted<W>(state: StateView<W>, action: Action<W>) -> StateView<W> {
    match action {
        Action::Push(task) => state.with_queue(state.queue.push(task)),
        Action::Pop => state.without_oldest(),
        Action::Notify => state.after_notify(),
        Action::Schedule(task) => state.scheduled(task),
        Action::Spawn(task) => state.spawned(task),
        Action::SpawnMany(tasks) => state.spawned_many(tasks),
        Action::Finish(key) => state.finished(key),
        Action::TryTick => state.ticked(),
        Action::Sleep(sleeping, waker) => state.slept(sleeping, waker),
        Action::Wake(sleeping) => state.woken(sleeping),
        Action::DropTicker(sleeping) => state.ticker_dropped(sleeping),
        Action::Register(id) => state.with_runner(id),
        Action::Search(own, start) => state.searched(own, start),
        Action::Refill(own) => state.refilled(own),
        Action::DropRunner(runner) => state.runner_dropped(runner),
        Action::Drain => state.drained(),
    }
}

/// The state after a sequence of actions.
pub open spec fn after_actions<W>(state: StateView<W>, actions: Seq<Action<W>>) -> StateView<W>
    decreases actions.len(),
{
    if actions.len() == 0 {
        state
    } else {
        acted(after_actions(state, actions.drop_last()), actions.last())
    }
}

/// Whether each action of a sequence may happen at its turn.
pub open spec fn all_possible<W>(state: StateView<W>, actions: Seq<Action<W>>) -> bool
    decreases actions.len(),
{
    actions.len() > 0 ==> {
        &&& all_possible(state, actions.drop_last())
        &&& possible(after_actions(state, actions.drop_last()), actions.last())
    }
}

/// Falling asleep and waking up keep a state well formed.
pub(crate) proof fn lemma_ticker_wf<W>(state: StateView<W>, sleeping: usize)
    requires
        state.wf(),
        ticker_valid(sleeping, state),
    ensures
        state.woken(sleeping).wf(),
        state.ticker_dropped(sleeping).wf(),
{
    if sleeping != 0 {
        state.sleepers.lemma_removed(sleeping);
    }
    state.woken(sleeping).lemma_notify();
    state.woken(sleeping).sleepers.lemma_after_notify();
}

/// An action keeps a state well formed.
pub(crate) proof fn lemma_acted_wf<W>(state: StateView<W>, action: Action<W>)
    requires
        state.wf(),
        possible(state, action),
    ensures
        acted(state, action).wf(),
{
    state.lemma_notify();
    state.sleepers.lemma_after_notify();
    match action {
        Action::Spawn(task) => {
            state.active.lemma_inserted(task);
        },
        Action::SpawnMany(tasks) => {
            lemma_inserted_many_wf(state.active, tasks);
        },
        Action::Finish(key) => {
            state.active.lemma_removed(key);
        },
        Action::Sleep(sleeping, waker) => {
            if sleeping == 0 {
                state.sleepers.lemma_inserted(waker);
            } else {
                state.sleepers.lemma_updated(sleeping, waker);
            }
        },
        Action::Wake(sleeping) => {
            lemma_ticker_wf(state, sleeping);
        },
        Action::DropTicker(sleeping) => {
            lemma_ticker_wf(state, sleeping);
        },
        Action::Register(id) => {
            assert forall|i: int| 0 <= i < state.local_queues.len() implies (
            #[trigger] state.local_queues[i]).0 != id by {}
        },
        Action::Search(own, start) => {
            lemma_victim(state.local_queues, own, start, 0);
        },
        Action::DropRunner(runner) => {
            let own = state.runner_position(runner.id);
            assert(0 <= own < state.local_queues.len());
            let rest = state.without_runner(own);
            assert(rest.wf());
            rest.lemma_notify();
            assert(state.unregistered(runner).wf());
            lemma_ticker_wf(state.unregistered(runner), runner.sleeping);
        },
        _ => {},
    }
}

/// Whatever happens, a well-formed state stays so.
pub proof fn law_keeps_wf<W>(state: StateView<W>, actions: Seq<Action<W>>)
    requires
        state.wf(),
        all_possible(state, actions),
    ensures
        after_actions(state, actions).wf(),
    decreases actions.len(),
{
    if actions.len() > 0 {
        law_keeps_wf(state, actions.drop_last());
        lemma_acted_wf(after_actions(state, actions.drop_last()), actions.last());
    }
}

/// Whatever happens to a new executor, its state is well formed.
pub proof fn law_always_wf<W>(actions: Seq<Action<W>>)
    requires
        all_possible(StateView::<W>::initial(), actions),
    ensures
        after_actions(StateView::<W>::initial(), actions).wf(),
{
    law_keeps_wf(StateView::<W>::initial(), actions);
}

/// Whatever happens to a new executor, the flag is set exactly if no ticker is sleeping or some
/// sleeping ticker is notified.
pub proof fn law_flag<W>(actions: Seq<Action<W>>)
    requires
        all_possible(StateView::<W>::initial(), actions),
    ensures
        ({
            let state = after_actions(StateView::<W>::initial(), actions);
            &&& state.notified <==> state.sleepers.count == 0 || state.sleepers.count
                > state.sleepers.wakers.len()
            &&& state.notified <==> state.sleepers.count == 0 || exists|id: usize| #[trigger]
                state.sleepers.asleep(id) && !state.sleepers.listed(id)
        }),
{
    law_always_wf(actions);
    law_notified(after_actions(StateView::<W>::initial(), actions));
}

/// Whether an action is not one of the ticker that sleeps under `id`.
pub open spec fn by_others<W>(action: Action<W>, id: usize) -> bool {
    match action {
        Action::Sleep(sleeping, _) => sleeping != id,
        Action::Wake(sleeping) => sleeping != id,
        Action::DropTicker(sleeping) => sleeping != id,
        Action::DropRunner(runner) => runner.sleeping != id,
        _ => true,
    }
}

/// What others do leaves a ticker asleep, and does not list it if it was not listed.
proof fn lemma_acted_by_others<W>(state: StateView<W>, action: Action<W>, id: usize)
    requires
        state.wf(),
        possible(state, action),
        by_others(action, id),
        state.sleepers.asleep(id),
    ensures
        acted(state, action).sleepers.asleep(id),
        acted(state, action).sleepers.listed(id) ==> state.sleepers.listed(id),
{
    lemma_notify_by_others(state, id);
    match action {
        Action::Sleep(sleeping, waker) => {
            law_others_stay_asleep(state, sleeping, waker, id);
        },
        Action::Wake(sleeping) => {
            lemma_drop_by_others(state, sleeping, id);
        },
        Action::DropTicker(sleeping) => {
            lemma_drop_by_others(state, sleeping, id);
        },
        Action::Search(own, start) => {
            state.lemma_search(own, start);
        },
        Action::DropRunner(runner) => {
            let own = state.runner_position(runner.id);
            assert(0 <= own < state.local_queues.len());
            let rest = state.without_runner(own);
            assert(rest.wf());
            rest.lemma_notify();
            lemma_notify_by_others(rest, id);
            assert(ticker_valid(runner.sleeping, state.unregistered(runner)));
            lemma_drop_by_others(state.unregistered(runner), runner.sleeping, id);
        },
        _ => {},
    }
}

/// A notification leaves every ticker asleep and lists none.
proof fn lemma_notify_by_others<W>(state: StateView<W>, id: usize)
    requires
        state.wf(),
        state.sleepers.asleep(id),
    ensures
        state.after_notify().sleepers.asleep(id),
        state.after_notify().sleepers.listed(id) ==> state.sleepers.listed(id),
{
    let after = state.after_notify().sleepers;
    if after.listed(id) && state.notification() is Some {
        let i = after.position(id);
        assert(after.wakers[i].0 == id);
        assert(state.sleepers.wakers[i + 1].0 == id);
    }
}

/// That a ticker wakes up or is dropped leaves the others asleep and lists none.
proof fn lemma_drop_by_others<W>(state: StateView<W>, sleeping: usize, id: usize)
    requires
        state.wf(),
        ticker_valid(sleeping, state),
        state.sleepers.asleep(id),
        sleeping != id,
    ensures
        state.woken(sleeping).sleepers.asleep(id),
        state.woken(sleeping).sleepers.listed(id) ==> state.sleepers.listed(id),
        state.ticker_dropped(sleeping).sleepers.asleep(id),
        state.ticker_dropped(sleeping).sleepers.listed(id) ==> state.sleepers.listed(id),
{
    if sleeping != 0 {
        law_others_stay_asleep(state, sleeping, arbitrary(), id);
    }
    lemma_ticker_wf(state, sleeping);
    lemma_notify_by_others(state.woken(sleeping), id);
}

/// Whatever others do, a sleeping ticker sleeps until it wakes up itself, and once it is notified
/// it is so until it falls asleep again itself.
pub proof fn law_others_do_not_list<W>(state: StateView<W>, actions: Seq<Action<W>>, id: usize)
    requires
        state.wf(),
        all_possible(state, actions),
        forall|i: int| 0 <= i < actions.len() ==> by_others(#[trigger] actions[i], id),
        state.sleepers.asleep(id),
    ensures
        after_actions(state, actions).wf(),
        after_actions(state, actions).sleepers.asleep(id),
        after_actions(state, actions).sleepers.listed(id) ==> state.sleepers.listed(id),
    decreases actions.len(),
{
    if actions.len() > 0 {
        let before = actions.drop_last();
        assert forall|i: int| 0 <= i < before.len() implies by_others(#[trigger] before[i], id) by {
            assert(before[i] == actions[i]);
        }
        law_others_do_not_list(state, before, id);
        assert(by_others(actions[actions.len() - 1], id));
        lemma_acted_wf(after_actions(state, before), actions.last());
        lemma_acted_by_others(after_actions(state, before), actions.last(), id);
    }
}

/// No wakeup is lost. Let a ticker search in the state `searched`, find `found`, and go on in the
/// state that others have left behind since. If it waits then, it found nothing, and it was
/// asleep and unnotified already when it searched. So a task that was there before is one that
/// the search could find, and for a task that others schedule from then on, a waker is handed
/// out, or some sleeping ticker is notified already.
pub proof fn law_no_lost_wakeup<W: Clone>(
    searched: StateView<W>,
    meanwhile: Seq<Action<W>>,
    sleeping: usize,
    found: Option<u64>,
    waker: W,
    step: Step<W>,
    ticker: usize,
    after: StateView<W>,
    later: Seq<Action<W>>,
    task: u64,
)
    requires
        searched.wf(),
        ticker_valid(sleeping, searched),
        all_possible(searched, meanwhile),
        forall|i: int|
            0 <= i < meanwhile.len() ==> sleeping == 0 || by_others(
                #[trigger] meanwhile[i],
                sleeping,
            ),
        after_actions(searched, meanwhile).step_outcome(
            sleeping,
            found,
            waker,
            step,
            ticker,
            after,
        ),
        step is Pending,
        all_possible(after, later),
        forall|i: int| 0 <= i < later.len() ==> by_others(#[trigger] later[i], ticker),
    ensures
        found is None,
        sleeping != 0,
        searched.sleepers.listed(sleeping),
        after.sleepers.listed(ticker),
        ({
            let state = after_actions(after, later);
            &&& state.sleepers.asleep(ticker)
            &&& state.notification() is Some || exists|id: usize| #[trigger]
                state.sleepers.asleep(id) && !state.sleepers.listed(id)
            &&& state.scheduled(task).notified
        }),
{
    law_others_do_not_list(searched, meanwhile, sleeping);
    let resumed = after_actions(searched, meanwhile);
    let stored = after.sleepers.waker_of(ticker);
    lemma_acted_wf(resumed, Action::Sleep(sleeping, stored));
    resumed.sleepers.lemma_updated(sleeping, stored);
    law_others_do_not_list(after, later, ticker);
    let state = after_actions(after, later);
    state.lemma_notify();
    state.sleepers.lemma_listed_at_most_count();
    law_notified(state);
}

/// The tasks that were spawned and have not finished since, by key, in an executor that was new
/// before the actions.
pub open spec fn unfinished<W>(actions: Seq<Action<W>>) -> Map<int, u64>
    decreases actions.len(),
{
    if actions.len() == 0 {
        Map::empty()
    } else {
        let before = unfinished(actions.drop_last());
        let active = after_actions(StateView::<W>::initial(), actions.drop_last()).active;
        match actions.last() {
            Action::Spawn(task) => before.insert(active.next_key(), task),
            Action::SpawnMany(tasks) => with_spawned(before, active, tasks),
            Action::Finish(key) => before.remove(key as int),
            Action::Drain => Map::empty(),
            _ => before,
        }
    }
}

/// The unfinished tasks after more tasks were spawned.
pub open spec fn with_spawned(
    before: Map<int, u64>,
    active: ActiveView,
    tasks: Seq<u64>,
) -> Map<int, u64>
    decreases tasks.len(),
{
    if tasks.len() == 0 {
        before
    } else {
        with_spawned(before, active, tasks.drop_last()).insert(
            active.inserted_many(tasks.drop_last()).next_key(),
            tasks.last(),
        )
    }
}

/// Whether a table holds exactly the given tasks under their keys.
pub open spec fn holds(active: ActiveView, tasks: Map<int, u64>) -> bool {
    forall|key: int| #[trigger]
        tasks.dom().contains(key) <==> 0 <= key < active.slots.len() && active.slots[key]
            == Some(tasks[key])
}

/// A table that holds the given tasks holds nothing else.
pub open spec fn holds_only(active: ActiveView, tasks: Map<int, u64>) -> bool {
    &&& holds(active, tasks)
    &&& forall|key: int|
        0 <= key < active.slots.len() && (#[trigger] active.slots[key]) is Some
            ==> tasks.dom().contains(key)
}

/// One more task in the table is one more task that it holds.
proof fn lemma_holds_inserted(active: ActiveView, tasks: Map<int, u64>, task: u64)
    requires
        active.wf(),
        holds_only(active, tasks),
    ensures
        holds_only(active.inserted(task), tasks.insert(active.next_key(), task)),
{
    let after = active.inserted(task);
    let key = active.next_key();
    if active.vacant.len() > 0 {
        assert(active.vacant[active.vacant.len() - 1] < active.slots.len());
    }
    assert forall|k: int| #[trigger]
        tasks.insert(key, task).dom().contains(k) <==> 0 <= k < after.slots.len()
            && after.slots[k] == Some(tasks.insert(key, task)[k]) by {
        if k != key {
            assert(tasks.dom().contains(k) <==> 0 <= k < active.slots.len() && active.slots[k]
                == Some(tasks[k]));
        }
    }
    assert forall|k: int|
        0 <= k < after.slots.len() && (#[trigger] after.slots[k]) is Some implies tasks.insert(
        key,
        task,
    ).dom().contains(k) by {
        if k != key {
            assert(active.slots[k] is Some);
        }
    }
}

/// More tasks in the table are more tasks that it holds.
proof fn lemma_holds_inserted_many(active: ActiveView, tasks: Map<int, u64>, more: Seq<u64>)
    requires
        active.wf(),
        holds_only(active, tasks),
    ensures
        holds_only(active.inserted_many(more), with_spawned(tasks, active, more)),
    decreases more.len(),
{
    if more.len() > 0 {
        lemma_holds_inserted_many(active, tasks, more.drop_last());
        lemma_inserted_many_wf(active, more.drop_last());
        lemma_holds_inserted(
            active.inserted_many(more.drop_last()),
            with_spawned(tasks, active, more.drop_last()),
            more.last(),
        );
    }
}

/// One task less in the table is one task less that it holds.
proof fn lemma_holds_removed(active: ActiveView, tasks: Map<int, u64>, key: usize)
    requires
        active.wf(),
        holds_only(active, tasks),
    ensures
        holds_only(active.removed(key), tasks.remove(key as int)),
{
    let after = active.removed(key);
    assert forall|k: int| #[trigger]
        tasks.remove(key as int).dom().contains(k) <==> 0 <= k < after.slots.len()
            && after.slots[k] == Some(tasks.remove(key as int)[k]) by {
        assert(tasks.dom().contains(k) <==> 0 <= k < active.slots.len() && active.slots[k]
            == Some(tasks[k]));
        if k == key && active.get(key) is Some {
            assert(after.slots[k] is None);
        }
        if k == key && active.get(key) is None && k < active.slots.len() {
            assert(after.slots[k] is None);
        }
    }
    assert forall|k: int|
        0 <= k < after.slots.len() && (#[trigger] after.slots[k]) is Some implies tasks.remove(
        key as int,
    ).dom().contains(k) by {
        assert(active.slots[k] is Some);
        if k == key {
            assert(active.get(key) is Some);
        }
    }
}

/// Whatever happens to a new executor, its active tasks are those that were spawned and have not
/// finished since.
proof fn lemma_unfinished<W>(actions: Seq<Action<W>>)
    requires
        all_possible(StateView::<W>::initial(), actions),
    ensures
        holds_only(
            after_actions(StateView::<W>::initial(), actions).active,
            unfinished(actions),
        ),
    decreases actions.len(),
{
    if actions.len() > 0 {
        lemma_unfinished(actions.drop_last());
        law_always_wf(actions.drop_last());
        let before = after_actions(StateView::<W>::initial(), actions.drop_last());
        let tasks = unfinished(actions.drop_last());
        match actions.last() {
            Action::Spawn(task) => {
                lemma_holds_inserted(before.active, tasks, task);
            },
            Action::SpawnMany(more) => {
                lemma_holds_inserted_many(before.active, tasks, more);
            },
            Action::Finish(key) => {
                lemma_holds_removed(before.active, tasks, key);
            },
            Action::Search(own, start) => {
                before.lemma_search(own, start);
            },
            _ => {},
        }
    }
}

/// Whatever happens to a new executor, it is empty exactly if every task that was spawned has
/// finished, and a task is active under its key from when it is spawned until it finishes.
pub proof fn law_is_empty_until_spawned<W>(actions: Seq<Action<W>>)
    requires
        all_possible(StateView::<W>::initial(), actions),
    ensures
        ({
            let active = after_actions(StateView::<W>::initial(), actions).active;
            &&& active.tasks().len() == 0 <==> unfinished(actions) == Map::<int, u64>::empty()
            &&& forall|key: usize| #[trigger]
                active.get(key) == if unfinished(actions).dom().contains(key as int) {
                    Some(unfinished(actions)[key as int])
                } else {
                    None
                }
        }),
{
    let active = after_actions(StateView::<W>::initial(), actions).active;
    let tasks = unfinished(actions);
    law_always_wf(actions);
    lemma_unfinished(actions);
    lemma_occupied_len(active.slots);
    assert forall|key: usize| #[trigger]
        active.get(key) == if tasks.dom().contains(key as int) {
            Some(tasks[key as int])
        } else {
            None
        } by {
        if key < active.slots.len() && active.slots[key as int] is Some {
            assert(tasks.dom().contains(key as int));
        }
    }
    if active.tasks().len() == 0 {
        assert forall|key: int| !(#[trigger] tasks.dom().contains(key)) by {
            if tasks.dom().contains(key) {
                assert(active.slots[key] is None);
            }
        }
        assert(tasks =~= Map::<int, u64>::empty());
    }
    if tasks == Map::<int, u64>::empty() {
        assert forall|key: int| 0 <= key < active.slots.len() implies (#[trigger] active.slots[key])
            is None by {
            assert(!tasks.dom().contains(key));
        }
    }
}

} // verus!
