//! What every call of a function does, said of what the state holds before and after it.

use crate::active::{occupied, ActiveView};
use crate::executor::{started, Executor};
use crate::laws::active::lemma_occupied_len;
use crate::laws::effects::{
    activates, awakes, drains, finishes, given, hands_out, is_key_order, key_at, notifies, others,
    pops, same_tasks, schedules, spawns, spawns_many, takes_oldest,
};
use crate::laws::spawning::{law_spawned_keys, lemma_inserted_many_wf};
use crate::local::LocalExecutor;
use crate::sleepers::{Sleepers, SleepersView};
use crate::spawn::{batch_end, lemma_batch_end, yield_after, yields_after, SpawnedMany};
use crate::state::{Spawned, State, StateView, Tick};
use crate::ticker::{ticker_valid, Ticker};
use vstd::prelude::*;

verus! {

/// A ticker that is not listed is not missed.
pub(crate) proof fn lemma_others_absent<W>(wakers: Seq<(usize, W)>, me: usize)
    requires
        forall|i: int| 0 <= i < wakers.len() ==> (#[trigger] wakers[i]).0 != me,
    ensures
        others(wakers, me) == wakers,
    decreases wakers.len(),
{
    if wakers.len() > 0 {
        let rest = wakers.drop_last();
        assert forall|i: int| 0 <= i < rest.len() implies (#[trigger] rest[i]).0 != me by {
            assert(rest[i] == wakers[i]);
        }
        lemma_others_absent(rest, me);
        assert(rest.push(wakers.last()) =~= wakers);
    }
}

/// The others are no more than all.
pub(crate) proof fn lemma_others_bound<W>(wakers: Seq<(usize, W)>, me: usize)
    ensures
        others(wakers, me).len() <= wakers.len(),
    decreases wakers.len(),
{
    if wakers.len() > 0 {
        lemma_others_bound(wakers.drop_last(), me);
    }
}

/// Without its only entry, the list has the entries of the others.
pub(crate) proof fn lemma_others_remove<W>(wakers: Seq<(usize, W)>, at: int)
    requires
        0 <= at < wakers.len(),
        forall|i: int|
            0 <= i < wakers.len() && i != at ==> (#[trigger] wakers[i]).0 != wakers[at].0,
    ensures
        others(wakers, wakers[at].0) == wakers.remove(at),
    decreases wakers.len(),
{
    let me = wakers[at].0;
    let rest = wakers.drop_last();
    if at == wakers.len() - 1 {
        assert forall|i: int| 0 <= i < rest.len() implies (#[trigger] rest[i]).0 != me by {
            assert(rest[i] == wakers[i]);
        }
        lemma_others_absent(rest, me);
        assert(rest =~= wakers.remove(at));
    } else {
        assert forall|i: int| 0 <= i < rest.len() && i != at implies (#[trigger] rest[i]).0
            != rest[at].0 by {
            assert(rest[i] == wakers[i]);
        }
        lemma_others_remove(rest, at);
        assert(wakers.last().0 != me);
        assert(rest.remove(at).push(wakers.last()) =~= wakers.remove(at));
    }
}

/// Without the ticker `me`, the list has the entries of the others.
pub(crate) proof fn lemma_removed<W>(sleepers: SleepersView<W>, me: usize)
    requires
        sleepers.wf(),
        sleepers.asleep(me),
    ensures
        sleepers.removed(me).wakers == others(sleepers.wakers, me),
        others(sleepers.removed(me).wakers, me) == sleepers.removed(me).wakers,
        awakes(sleepers, me, sleepers.removed(me)),
        hands_out(sleepers, me, Seq::empty(), sleepers.removed(me)),
{
    let after = sleepers.removed(me);
    sleepers.lemma_removed(me);
    if sleepers.listed(me) {
        let at = sleepers.position(me);
        assert(sleepers.wakers[at].0 == me);
        lemma_others_remove(sleepers.wakers, at);
    } else {
        lemma_others_absent(sleepers.wakers, me);
    }
    assert forall|i: int| 0 <= i < after.wakers.len() implies (#[trigger] after.wakers[i]).0
        != me by {
        assert(after.asleep(after.wakers[i].0));
    }
    lemma_others_absent(after.wakers, me);
}

/// No ticker sleeps under zero.
pub(crate) proof fn lemma_others_zero<W>(sleepers: SleepersView<W>)
    requires
        sleepers.wf(),
    ensures
        others(sleepers.wakers, 0) == sleepers.wakers,
{
    assert forall|i: int| 0 <= i < sleepers.wakers.len() implies (#[trigger] sleepers.wakers[i]).0
        != 0 by {
        assert(sleepers.asleep(sleepers.wakers[i].0));
    }
    lemma_others_absent(sleepers.wakers, 0);
}

/// That a ticker wakes up hands out nothing.
pub(crate) proof fn lemma_woken<W>(state: StateView<W>, me: usize)
    requires
        state.wf(),
        ticker_valid(me, state),
    ensures
        state.woken(me).wf(),
        state.woken(me).sleepers.wakers == others(state.sleepers.wakers, me),
        others(state.woken(me).sleepers.wakers, me) == state.woken(me).sleepers.wakers,
        awakes(state.sleepers, me, state.woken(me).sleepers),
        hands_out(state.sleepers, me, Seq::empty(), state.woken(me).sleepers),
        same_tasks(state, state.woken(me)),
{
    if me == 0 {
        lemma_others_zero(state.sleepers);
    } else {
        lemma_removed(state.sleepers, me);
        state.sleepers.lemma_removed(me);
    }
}

/// That a ticker wakes up and passes the notification on notifies another one.
pub(crate) proof fn lemma_found<W>(state: StateView<W>, me: usize)
    requires
        state.wf(),
        ticker_valid(me, state),
    ensures
        state.found(me).wf(),
        same_tasks(state, state.found(me)),
        awakes(state.sleepers, me, state.found(me).sleepers),
        notifies(
            state.sleepers,
            me,
            given(state.woken(me).notification()),
            state.found(me).sleepers,
        ),
{
    let woken = state.woken(me);
    let after = state.found(me);
    lemma_woken(state, me);
    woken.lemma_notify();
    woken.sleepers.lemma_after_notify();
    woken.sleepers.lemma_listed_at_most_count();
    assert forall|i: int| 0 <= i < after.sleepers.wakers.len() implies (
    #[trigger] after.sleepers.wakers[i]).0 != me by {
        assert(after.sleepers.asleep(after.sleepers.wakers[i].0));
        assert(woken.sleepers.asleep(after.sleepers.wakers[i].0));
        if me != 0 {
            state.sleepers.lemma_removed(me);
        }
    }
    lemma_others_absent(after.sleepers.wakers, me);
    assert forall|id: usize| #[trigger] after.sleepers.asleep(id) <==> state.sleepers.asleep(id)
        && id != me by {
        assert(after.sleepers.asleep(id) <==> woken.sleepers.asleep(id));
    }
}

/// A notification notifies someone, unless nobody sleeps.
pub(crate) proof fn lemma_notified<W>(state: StateView<W>)
    requires
        state.wf(),
    ensures
        state.after_notify().wf(),
        same_tasks(state, state.after_notify()),
        awakes(state.sleepers, 0, state.after_notify().sleepers),
        notifies(state.sleepers, 0, given(state.notification()), state.after_notify().sleepers),
{
    assert(state.woken(0) == state);
    lemma_found(state, 0);
}

/// Scheduling a task puts it behind the others in the global queue and notifies a sleeping ticker,
/// whose waker is handed out, unless one was notified already or none sleeps.
pub proof fn law_schedule<W>()
    ensures
        forall|state: &mut State<W>, task: u64, wake: Option<W>|
            state.wf() && #[trigger] call_ensures(State::<W>::schedule, (state, task), wake)
                ==> schedules(state@, task, wake, final(state)@),
        forall|executor: &mut Executor<W>, task: u64, wake: Option<W>|
            executor.wf() && #[trigger] call_ensures(
                Executor::<W>::schedule,
                (executor, task),
                wake,
            ) ==> schedules(started(executor@), task, wake, started(final(executor)@)),
        forall|state: &mut State<W>, wake: Option<W>|
            state.wf() && #[trigger] call_ensures(State::<W>::notify, (state,), wake) ==> {
                &&& same_tasks(state@, final(state)@)
                &&& awakes(state@.sleepers, 0, final(state)@.sleepers)
                &&& notifies(state@.sleepers, 0, given(wake), final(state)@.sleepers)
            },
{
    assert forall|state: StateView<W>, task: u64| state.wf() implies schedules(
        state,
        task,
        state.notification(),
        #[trigger] state.scheduled(task),
    ) by {
        lemma_notified(state.with_queue(state.queue.push(task)));
    }
    assert forall|state: StateView<W>| state.wf() implies {
        &&& same_tasks(state, #[trigger] state.after_notify())
        &&& awakes(state.sleepers, 0, state.after_notify().sleepers)
        &&& notifies(
            state.sleepers,
            0,
            given(state.notification()),
            state.after_notify().sleepers,
        )
    } by {
        lemma_notified(state);
    }
}

/// A task that is spawned is active under its key until it finishes.
pub(crate) proof fn lemma_activates(active: ActiveView, task: u64, key: usize)
    requires
        active.wf(),
        key == active.next_key(),
    ensures
        activates(active, task, key, active.inserted(task)),
{
    active.lemma_inserted(task);
    assert(active.inserted(task).get(key) == Some(task));
}

/// Spawning a task makes it active under a key of its own, and schedules it.
pub proof fn law_spawn<W>()
    ensures
        forall|state: &mut State<W>, task: u64, spawned: Spawned<W>|
            state.wf() && #[trigger] call_ensures(
                State::<W>::spawn_inner,
                (state, task),
                spawned,
            ) ==> spawns(state@, task, spawned.key, spawned.wake, final(state)@),
        forall|executor: &mut Executor<W>, task: u64, spawned: Spawned<W>|
            executor.wf() && #[trigger] call_ensures(
                Executor::<W>::spawn,
                (executor, task),
                spawned,
            ) ==> spawns(
                started(executor@),
                task,
                spawned.key,
                spawned.wake,
                started(final(executor)@),
            ),
        forall|executor: &mut LocalExecutor<W>, task: u64, spawned: Spawned<W>|
            executor.wf() && #[trigger] call_ensures(
                LocalExecutor::<W>::spawn,
                (executor, task),
                spawned,
            ) ==> spawns(
                started(executor@),
                task,
                spawned.key,
                spawned.wake,
                started(final(executor)@),
            ),
{
    lemma_initial_wf::<W>();
    assert forall|state: StateView<W>, task: u64, key: usize|
        state.wf() && key == state.active.next_key() implies #[trigger] spawns(
        state,
        task,
        key,
        state.notification(),
        state.spawned(task),
    ) by {
        lemma_activates(state.active, task, key);
        state.active.lemma_inserted(task);
        let queued = StateView { active: state.active.inserted(task), ..state }.with_queue(
            state.queue.push(task),
        );
        lemma_notified(queued);
        assert(queued.notification() == state.notification());
    }
}

/// The state of a new executor is well formed.
pub(crate) proof fn lemma_initial_wf<W>()
    ensures
        StateView::<W>::initial().wf(),
        forall|executor: LocalExecutor<W>|
            executor.wf() ==> started(#[trigger] executor@).wf(),
{
    assert forall|executor: LocalExecutor<W>| executor.wf() implies started(
        #[trigger] executor@,
    ).wf() by {
        executor.lemma_wf();
    }
}

/// Finishing a task makes it inactive and does nothing else. Its key is used again next.
pub proof fn law_finish<W>()
    ensures
        forall|state: &mut State<W>, key: usize, task: Option<u64>|
            state.wf() && #[trigger] call_ensures(State::<W>::finish, (state, key), task)
                ==> finishes(state@, key, task, final(state)@),
        forall|executor: &mut Executor<W>, key: usize, task: Option<u64>|
            executor.wf() && #[trigger] call_ensures(
                Executor::<W>::finish,
                (executor, key),
                task,
            ) ==> finishes(started(executor@), key, task, started(final(executor)@)),
{
    assert forall|state: StateView<W>, key: usize| state.wf() implies finishes(
        state,
        key,
        state.active.get(key),
        #[trigger] state.finished(key),
    ) by {
        state.active.lemma_removed(key);
    }
}

/// A task to run is the oldest one in the global queue, and there is one unless that is empty.
/// Another ticker is notified.
pub open spec fn tries<W>(
    before: StateView<W>,
    tick: Option<Tick<W>>,
    after: StateView<W>,
) -> bool {
    match tick {
        Some(tick) => takes_oldest(before, 0, tick.task, tick.wake, after),
        None => before.queue.len() == 0 && after == before,
    }
}

/// Attempting to run a task gives the oldest one in the global queue, and notifies a sleeping
/// ticker for those behind it.
pub proof fn law_try_tick<W>()
    ensures
        forall|state: &mut State<W>, tick: Option<Tick<W>>|
            state.wf() && #[trigger] call_ensures(State::<W>::try_tick, (state,), tick) ==> tries(
                state@,
                tick,
                final(state)@,
            ),
        forall|executor: &mut Executor<W>, tick: Option<Tick<W>>|
            executor.wf() && #[trigger] call_ensures(Executor::<W>::try_tick, (executor,), tick)
                ==> tries(started(executor@), tick, started(final(executor)@)),
        forall|executor: &mut LocalExecutor<W>, tick: Option<Tick<W>>|
            executor.wf() && #[trigger] call_ensures(
                LocalExecutor::<W>::try_tick,
                (executor,),
                tick,
            ) ==> tries(started(executor@), tick, started(final(executor)@)),
{
    lemma_initial_wf::<W>();
    assert forall|state: StateView<W>| state.wf() && state.queue.len() > 0 implies takes_oldest(
        state,
        0,
        state.queue[0],
        state.notification(),
        #[trigger] state.ticked(),
    ) by {
        lemma_notified(state.with_queue(state.queue.drop_first()));
        assert(state.queue =~= seq![state.queue[0]] + state.queue.drop_first());
    }
}

/// The tasks in the slots come in the order of their keys.
pub(crate) proof fn lemma_key_order(slots: Seq<Option<u64>>) -> (keys: Seq<int>)
    ensures
        is_key_order(ActiveView { slots, vacant: Seq::empty() }, occupied(slots), keys),
    decreases slots.len(),
{
    if slots.len() == 0 {
        Seq::empty()
    } else {
        let rest = slots.drop_last();
        let before = lemma_key_order(rest);
        let last = slots.len() - 1;
        assert(forall|i: int| 0 <= i < rest.len() ==> rest[i] == slots[i]);
        let keys = if slots.last() is Some {
            before.push(last)
        } else {
            before
        };
        assert forall|key: int|
            0 <= key < slots.len() && (#[trigger] slots[key]) is Some implies keys.contains(
            key,
        ) by {
            if key < last {
                assert(rest[key] is Some);
                assert(before.contains(key));
                let i = choose|i: int| 0 <= i < before.len() && before[i] == key;
                assert(keys[i] == key);
            } else {
                assert(keys[keys.len() - 1] == key);
            }
        }
        assert forall|i: int| 0 <= i < keys.len() implies 0 <= #[trigger] keys[i] < slots.len()
            && slots[keys[i]] == Some(occupied(slots)[i]) by {
            if i < before.len() {
                assert(keys[i] == before[i]);
                assert(rest[before[i]] == Some(occupied(rest)[i]));
            }
        }
        assert forall|i: int, j: int| 0 <= i < j < keys.len() implies #[trigger] keys[i]
            < #[trigger] keys[j] by {
            assert(keys[i] == before[i]);
            if j < before.len() {
                assert(keys[j] == before[j]);
            } else {
                assert(0 <= before[i] < rest.len());
            }
        }
        keys
    }
}

/// Dropping an executor takes out the active tasks, in the order of their keys, and the tasks in
/// the global queue one by one, the oldest first.
pub proof fn law_drop<W>()
    ensures
        forall|state: &mut State<W>, tasks: Vec<u64>|
            state.wf() && #[trigger] call_ensures(State::<W>::drain, (state,), tasks) ==> drains(
                state@,
                tasks@,
                final(state)@,
            ),
        forall|executor: &mut Executor<W>, tasks: Vec<u64>|
            executor.wf() && #[trigger] call_ensures(Executor::<W>::drop, (executor,), tasks) ==> {
                &&& drains(started(executor@), tasks@, started(final(executor)@))
                &&& final(executor)@ is Some <==> executor@ is Some
            },
        forall|state: &mut State<W>, task: Option<u64>|
            state.wf() && #[trigger] call_ensures(State::<W>::pop_queued, (state,), task) ==> pops(
                state@,
                task,
                final(state)@,
            ),
        forall|executor: &mut Executor<W>, task: Option<u64>|
            executor.wf() && #[trigger] call_ensures(
                Executor::<W>::drop_queued,
                (executor,),
                task,
            ) ==> pops(started(executor@), task, started(final(executor)@)),
{
    assert forall|state: StateView<W>| true implies drains(
        state,
        state.active.tasks(),
        #[trigger] state.drained(),
    ) by {
        let keys = lemma_key_order(state.active.slots);
        assert(is_key_order(state.active, state.active.tasks(), keys));
    }
    assert forall|state: StateView<W>| state.queue.len() > 0 implies pops(
        state,
        Some(state.queue[0]),
        #[trigger] state.without_oldest(),
    ) by {
        assert(state.queue =~= seq![state.queue[0]] + state.queue.drop_first());
    }
    let initial = StateView::<W>::initial();
    assert(drains(initial, initial.active.tasks(), initial.drained()));
    assert(initial.drained() == initial);
    assert(initial.active.tasks() =~= Seq::<u64>::empty());
}

/// An executor is empty exactly if no slot has a task, and looking changes nothing.
pub proof fn law_is_empty<W>()
    ensures
        forall|state: &State<W>, empty: bool| #[trigger]
            call_ensures(State::<W>::is_empty, (state,), empty) ==> (empty <==> forall|key: int|
                0 <= key < state@.active.slots.len() ==> (#[trigger] state@.active.slots[key])
                    is None),
        forall|executor: &mut Executor<W>, empty: bool|
            executor.wf() && #[trigger] call_ensures(
                Executor::<W>::is_empty,
                (executor,),
                empty,
            ) ==> {
                &&& empty <==> forall|key: int|
                    0 <= key < started(executor@).active.slots.len() ==> (
                    #[trigger] started(executor@).active.slots[key]) is None
                &&& final(executor)@ == Some(started(executor@))
            },
        forall|executor: &mut LocalExecutor<W>, empty: bool|
            executor.wf() && #[trigger] call_ensures(
                LocalExecutor::<W>::is_empty,
                (executor,),
                empty,
            ) ==> {
                &&& empty <==> forall|key: int|
                    0 <= key < started(executor@).active.slots.len() ==> (
                    #[trigger] started(executor@).active.slots[key]) is None
                &&& final(executor)@ == Some(started(executor@))
            },
{
    assert forall|active: ActiveView|
        (#[trigger] active.tasks()).len() == 0 <==> forall|key: int|
            0 <= key < active.slots.len() ==> (#[trigger] active.slots[key]) is None by {
        lemma_occupied_len(active.slots);
    }
}

/// How many keys are left to be used again after `n` tasks were inserted, and how many there are.
proof fn lemma_inserted_many_keys(active: ActiveView, tasks: Seq<u64>)
    requires
        active.wf(),
    ensures
        ({
            let after = active.inserted_many(tasks);
            let vacant = active.vacant.len() as int;
            let n = tasks.len() as int;
            &&& n <= vacant ==> after.vacant == active.vacant.take(vacant - n)
                && after.slots.len() == active.slots.len()
            &&& n > vacant ==> after.vacant.len() == 0 && after.slots.len() == active.slots.len()
                + n - vacant
            &&& after.next_key() == key_at(active, n)
        }),
    decreases tasks.len(),
{
    if tasks.len() == 0 {
        assert(active.vacant.take(active.vacant.len() as int) =~= active.vacant);
    } else {
        lemma_inserted_many_keys(active, tasks.drop_last());
        let before = active.inserted_many(tasks.drop_last());
        let vacant = active.vacant.len() as int;
        let n = tasks.len() as int;
        if n <= vacant {
            assert(before.vacant.drop_last() =~= active.vacant.take(vacant - n));
        }
    }
}

/// A key that none of the tasks got has what it had.
proof fn lemma_inserted_many_others(active: ActiveView, tasks: Seq<u64>, key: usize)
    requires
        active.wf(),
        forall|i: int| 0 <= i < tasks.len() ==> #[trigger] key_at(active, i) != key,
    ensures
        active.inserted_many(tasks).get(key) == active.get(key),
    decreases tasks.len(),
{
    if tasks.len() > 0 {
        let rest = tasks.drop_last();
        lemma_inserted_many_others(active, rest, key);
        lemma_inserted_many_wf(active, rest);
        lemma_inserted_many_keys(active, rest);
        let before = active.inserted_many(rest);
        before.lemma_inserted(tasks.last());
        assert(key_at(active, rest.len() as int) != key);
    }
}

/// Spawning tasks together makes each of them active under a key of its own, and schedules them in
/// their order.
proof fn lemma_spawns_many<W>(state: StateView<W>, tasks: Seq<u64>, keys: Seq<usize>)
    requires
        state.wf(),
        keys.map_values(|key: usize| key as int) == state.active.next_keys(tasks),
    ensures
        spawns_many(
            state,
            tasks,
            keys,
            state.spawned_many_wake(tasks),
            state.spawned_many(tasks),
        ),
{
    let after = state.spawned_many(tasks);
    law_spawned_keys(state.active, tasks, keys);
    assert(after.active == state.active.inserted_many(tasks));
    assert forall|i: int| 0 <= i < keys.len() implies #[trigger] keys[i] == key_at(
        state.active,
        i,
    ) by {
        assert(keys.map_values(|key: usize| key as int)[i] == keys[i]);
        assert(state.active.next_keys(tasks)[i] == state.active.inserted_many(
            tasks.take(i),
        ).next_key());
        lemma_inserted_many_keys(state.active, tasks.take(i));
    }
    assert forall|key: usize| !keys.contains(key) implies #[trigger] after.active.get(key)
        == state.active.get(key) by {
        assert forall|i: int| 0 <= i < tasks.len() implies #[trigger] key_at(state.active, i)
            != key by {
            assert(keys[i] == key_at(state.active, i));
        }
        lemma_inserted_many_others(state.active, tasks, key);
    }
    if tasks.len() == 0 {
        assert(state.queue + tasks =~= state.queue);
    } else {
        lemma_inserted_many_wf(state.active, tasks);
        let queued = StateView {
            active: state.active.inserted_many(tasks),
            queue: state.queue + tasks,
            ..state
        };
        lemma_notified(queued);
        assert(queued.notification() == state.notification());
    }
}

/// Spawning tasks together makes each of them active under a key of its own and schedules them in
/// their order, whether they are all of them or a part. At most one waker is handed out.
pub proof fn law_spawn_many<W>()
    ensures
        forall|
            state: &mut State<W>,
            tasks: &Vec<u64>,
            from: usize,
            to: usize,
            spawned: SpawnedMany<W>,
        |
            state.wf() && from <= to <= tasks@.len() && #[trigger] call_ensures(
                State::<W>::spawn_range,
                (state, tasks, from, to),
                spawned,
            ) ==> spawns_many(
                state@,
                tasks@.subrange(from as int, to as int),
                spawned.keys@,
                spawned.wake,
                final(state)@,
            ),
        forall|executor: &mut LocalExecutor<W>, tasks: &Vec<u64>, spawned: SpawnedMany<W>|
            executor.wf() && #[trigger] call_ensures(
                LocalExecutor::<W>::spawn_many,
                (executor, tasks),
                spawned,
            ) ==> spawns_many(
                started(executor@),
                tasks@,
                spawned.keys@,
                spawned.wake,
                started(final(executor)@),
            ),
{
    lemma_initial_wf::<W>();
    assert forall|state: StateView<W>, tasks: Seq<u64>, keys: Seq<usize>|
        state.wf() && keys.map_values(|key: usize| key as int) == state.active.next_keys(
            tasks,
        ) implies #[trigger] spawns_many(
        state,
        tasks,
        keys,
        state.spawned_many_wake(tasks),
        state.spawned_many(tasks),
    ) by {
        lemma_spawns_many(state, tasks, keys);
    }
}

/// Whether other threads get at the executor behind the task at position `i`: the second one of
/// all, and every five hundredth from there on.
pub open spec fn pauses_behind(i: int) -> bool {
    i >= 1 && (i - 1) % 500 == 0
}

/// One call spawns the tasks of a list from a position up to the next pause, or up to the end. It
/// spawns none only if there are none left.
pub proof fn law_spawn_many_batch<W>()
    ensures
        forall|
            executor: &mut Executor<W>,
            tasks: &Vec<u64>,
            from: usize,
            spawned: SpawnedMany<W>,
        |
            executor.wf() && from <= tasks@.len() && #[trigger] call_ensures(
                Executor::<W>::spawn_many,
                (executor, tasks, from),
                spawned,
            ) ==> {
                let end = from + spawned.keys@.len();
                &&& end <= tasks@.len()
                &&& end == from ==> from == tasks@.len()
                &&& end < tasks@.len() ==> pauses_behind(end - 1)
                &&& forall|i: int| from <= i < end - 1 ==> !#[trigger] pauses_behind(i)
                &&& spawns_many(
                    started(executor@),
                    tasks@.subrange(from as int, end),
                    spawned.keys@,
                    spawned.wake,
                    started(final(executor)@),
                )
            },
        forall|i: usize, yields: bool| #[trigger]
            call_ensures(yield_after, (i,), yields) ==> (yields <==> pauses_behind(i as int)),
{
    lemma_initial_wf::<W>();
    assert forall|state: StateView<W>, tasks: Seq<u64>, keys: Seq<usize>|
        state.wf() && keys.map_values(|key: usize| key as int) == state.active.next_keys(
            tasks,
        ) implies #[trigger] spawns_many(
        state,
        tasks,
        keys,
        state.spawned_many_wake(tasks),
        state.spawned_many(tasks),
    ) by {
        lemma_spawns_many(state, tasks, keys);
    }
    assert forall|
        executor: &mut Executor<W>,
        tasks: &Vec<u64>,
        from: usize,
        spawned: SpawnedMany<W>,
    |
        executor.wf() && from <= tasks@.len() && #[trigger] call_ensures(
            Executor::<W>::spawn_many,
            (executor, tasks, from),
            spawned,
        ) implies {
        let end = from + spawned.keys@.len();
        &&& end <= tasks@.len()
        &&& end == from ==> from == tasks@.len()
        &&& end < tasks@.len() ==> pauses_behind(end - 1)
        &&& forall|i: int| from <= i < end - 1 ==> !#[trigger] pauses_behind(i)
        &&& spawns_many(
            started(executor@),
            tasks@.subrange(from as int, end),
            spawned.keys@,
            spawned.wake,
            started(final(executor)@),
        )
    } by {
        lemma_batch_end(from as int, tasks@.len() as int);
        let end = batch_end(from as int, tasks@.len() as int);
        let batch = tasks@.subrange(from as int, end);
        let state = started(executor@);
        lemma_spawns_many(state, batch, spawned.keys@);
        assert forall|i: int| from <= i < end - 1 implies !#[trigger] pauses_behind(i) by {
            assert(!yields_after(i));
        }
    }
}

/// A state without tasks, runners or sleeping tickers.
pub open spec fn untouched<W>(state: StateView<W>) -> bool {
    &&& state.queue.len() == 0
    &&& state.local_queues.len() == 0
    &&& state.notified
    &&& state.sleepers.count == 0
    &&& state.sleepers.wakers.len() == 0
    &&& state.sleepers.free_ids.len() == 0
    &&& state.active.slots.len() == 0
    &&& state.active.vacant.len() == 0
}

/// A new executor has no state until it is used, and it gets one without tasks, runners or
/// sleeping tickers then. Once it has a state, it is that one which is used.
pub proof fn law_new<W>()
    ensures
        forall|state: State<W>| #[trigger]
            call_ensures(State::<W>::new, (), state) ==> untouched(state@),
        forall|sleepers: Sleepers<W>| #[trigger]
            call_ensures(Sleepers::<W>::new, (), sleepers) ==> {
                &&& sleepers@.count == 0
                &&& sleepers@.wakers.len() == 0
                &&& sleepers@.free_ids.len() == 0
            },
        forall|ticker: Ticker| #[trigger] call_ensures(Ticker::new, (), ticker) ==> ticker@ == 0,
        forall|executor: Executor<W>| #[trigger]
            call_ensures(Executor::<W>::new, (), executor) ==> executor@ is None,
        forall|executor: LocalExecutor<W>| #[trigger]
            call_ensures(LocalExecutor::<W>::new, (), executor) ==> executor@ is None,
        forall|executor: Executor<W>| #[trigger]
            call_ensures(Executor::<W>::default, (), executor) ==> executor@ is None,
        forall|executor: LocalExecutor<W>| #[trigger]
            call_ensures(LocalExecutor::<W>::default, (), executor) ==> executor@ is None,
        forall|executor: &mut Executor<W>, state: &mut State<W>|
            executor.wf() && #[trigger] call_ensures(Executor::<W>::state, (executor,), state)
                ==> {
                &&& executor@ is None ==> untouched(state@)
                &&& executor@ matches Some(before) ==> state@ == before
                &&& final(executor)@ == Some(final(state)@)
            },
        forall|executor: &mut LocalExecutor<W>, inner: &mut Executor<W>|
            executor.wf() && #[trigger] call_ensures(
                LocalExecutor::<W>::inner,
                (executor,),
                inner,
            ) ==> {
                &&& inner@ == executor@
                &&& final(executor)@ == final(inner)@
            },
{
}

} // verus!
