//! What calls are for, said of what the state holds before and after them.
//!
//! Nothing here refers to how a call is made: these are relations between the lists and queues of
//! two states, and [`calls`](crate::laws::calls) shows that the functions establish them.

use crate::active::ActiveView;
use crate::sleepers::SleepersView;
use crate::state::StateView;
use vstd::prelude::*;

verus! {

/// The wakers that come with a result.
pub open spec fn given<W>(wake: Option<W>) -> Seq<W> {
    match wake {
        Some(waker) => seq![waker],
        None => Seq::empty(),
    }
}

/// The listed tickers other than `me`, in their order.
pub open spec fn others<W>(wakers: Seq<(usize, W)>, me: usize) -> Seq<(usize, W)>
    decreases wakers.len(),
{
    if wakers.len() == 0 {
        wakers
    } else {
        let rest = others(wakers.drop_last(), me);
        if wakers.last().0 == me {
            rest
        } else {
            rest.push(wakers.last())
        }
    }
}

/// The wakers handed out are those of exactly the tickers other than `me` that were listed before
/// and are not after, from the head of the list on. The others stay listed as they were.
pub open spec fn hands_out<W>(
    before: SleepersView<W>,
    me: usize,
    wakes: Seq<W>,
    after: SleepersView<W>,
) -> bool {
    let listed = others(before.wakers, me);
    let left = others(after.wakers, me);
    &&& listed.len() == wakes.len() + left.len()
    &&& forall|i: int| 0 <= i < wakes.len() ==> #[trigger] wakes[i] == listed[i].1
    &&& forall|i: int| 0 <= i < left.len() ==> #[trigger] left[i] == listed[wakes.len() + i]
}

/// Wakers are handed out so that a sleeping ticker is notified afterwards, unless none sleeps; and
/// one is handed out only if no other ticker was notified already.
pub open spec fn notifies<W>(
    before: SleepersView<W>,
    me: usize,
    wakes: Seq<W>,
    after: SleepersView<W>,
) -> bool {
    &&& hands_out(before, me, wakes, after)
    &&& wakes.len() <= 1
    &&& after.count == 0 || after.wakers.len() < after.count
    &&& wakes.len() == 1 ==> others(before.wakers, me).len() == after.count
}

/// The ticker `me`, if it slept, sleeps no more, and its identifier is the next to be handed out.
/// The other tickers sleep as before.
pub open spec fn awakes<W>(before: SleepersView<W>, me: usize, after: SleepersView<W>) -> bool {
    &&& forall|id: usize| #[trigger] after.asleep(id) <==> before.asleep(id) && id != me
    &&& me == 0 ==> after.count == before.count && after.free_ids == before.free_ids
    &&& me != 0 ==> after.count + 1 == before.count && after.free_ids == before.free_ids.push(me)
}

/// The ticker that slept under `me`, or not at all if that is zero, sleeps under `id` with a clone
/// of `waker`. Nobody else is affected. It keeps its place in the list, and gets the last one if
/// it had none.
pub open spec fn falls_asleep<W: Clone>(
    before: SleepersView<W>,
    me: usize,
    waker: W,
    id: usize,
    after: SleepersView<W>,
) -> bool {
    &&& id != 0
    &&& me != 0 ==> {
        &&& id == me
        &&& after.count == before.count
        &&& after.free_ids == before.free_ids
    }
    &&& me == 0 ==> {
        &&& !before.asleep(id)
        &&& after.count == before.count + 1
        &&& before.free_ids.len() > 0 ==> id == before.free_ids.last() && after.free_ids
            == before.free_ids.drop_last()
        &&& before.free_ids.len() == 0 ==> id == before.count + 1 && after.free_ids.len() == 0
    }
    &&& forall|other: usize| #[trigger]
        after.asleep(other) <==> before.asleep(other) || other == id
    &&& hands_out(before, id, Seq::empty(), after)
    &&& if before.listed(id) {
        &&& after.wakers.len() == before.wakers.len()
        &&& forall|i: int|
            0 <= i < after.wakers.len() ==> (#[trigger] after.wakers[i]).0 == before.wakers[i].0
    } else {
        &&& after.wakers.len() == before.wakers.len() + 1
        &&& after.wakers.last().0 == id
    }
    &&& forall|i: int|
        0 <= i < after.wakers.len() && (#[trigger] after.wakers[i]).0 == id ==> cloned(
            waker,
            after.wakers[i].1,
        )
}

/// The queues and the active tasks stay as they are.
pub open spec fn same_tasks<W>(before: StateView<W>, after: StateView<W>) -> bool {
    &&& after.queue == before.queue
    &&& after.local_queues == before.local_queues
    &&& after.active == before.active
}

/// A task is behind all others in the global queue, and someone is notified.
pub open spec fn schedules<W>(
    before: StateView<W>,
    task: u64,
    wake: Option<W>,
    after: StateView<W>,
) -> bool {
    &&& after.queue == before.queue.push(task)
    &&& after.local_queues == before.local_queues
    &&& after.active == before.active
    &&& awakes(before.sleepers, 0, after.sleepers)
    &&& notifies(before.sleepers, 0, given(wake), after.sleepers)
}

/// A task is active under a key that was free: the one that was given back last, or the next one
/// that was never used. The others are active as before.
pub open spec fn activates(before: ActiveView, task: u64, key: usize, after: ActiveView) -> bool {
    &&& before.get(key) is None
    &&& after.get(key) == Some(task)
    &&& forall|other: usize| other != key ==> #[trigger] after.get(other) == before.get(other)
    &&& before.vacant.len() == 0 ==> key == before.slots.len() && after.vacant.len() == 0
    &&& before.vacant.len() > 0 ==> key == before.vacant.last() && after.vacant
        == before.vacant.drop_last()
}

/// A task is active, and scheduled.
pub open spec fn spawns<W>(
    before: StateView<W>,
    task: u64,
    key: usize,
    wake: Option<W>,
    after: StateView<W>,
) -> bool {
    &&& after.queue == before.queue.push(task)
    &&& after.local_queues == before.local_queues
    &&& activates(before.active, task, key, after.active)
    &&& awakes(before.sleepers, 0, after.sleepers)
    &&& notifies(before.sleepers, 0, given(wake), after.sleepers)
}

/// The key that the task at place `i` of those that are spawned together gets: first those that
/// were given back, the last one first, then those that were never used.
pub open spec fn key_at(before: ActiveView, i: int) -> int {
    if i < before.vacant.len() {
        before.vacant[before.vacant.len() - 1 - i] as int
    } else {
        before.slots.len() + i - before.vacant.len()
    }
}

/// Tasks are active under keys of their own, and scheduled in their order. If there are any,
/// someone is notified.
pub open spec fn spawns_many<W>(
    before: StateView<W>,
    tasks: Seq<u64>,
    keys: Seq<usize>,
    wake: Option<W>,
    after: StateView<W>,
) -> bool {
    &&& after.queue == before.queue + tasks
    &&& after.local_queues == before.local_queues
    &&& keys.len() == tasks.len()
    &&& keys.no_duplicates()
    &&& forall|i: int|
        0 <= i < keys.len() ==> {
            &&& before.active.get(#[trigger] keys[i]) is None
            &&& after.active.get(keys[i]) == Some(tasks[i])
            &&& keys[i] == key_at(before.active, i)
        }
    &&& forall|key: usize|
        !keys.contains(key) ==> #[trigger] after.active.get(key) == before.active.get(key)
    &&& awakes(before.sleepers, 0, after.sleepers)
    &&& if tasks.len() == 0 {
        &&& wake is None
        &&& after.sleepers == before.sleepers
    } else {
        notifies(before.sleepers, 0, given(wake), after.sleepers)
    }
}

/// The task under a key, if there is one, is active no more, and the key is the next to be used.
/// Nothing else changes.
pub open spec fn finishes<W>(
    before: StateView<W>,
    key: usize,
    task: Option<u64>,
    after: StateView<W>,
) -> bool {
    &&& task == before.active.get(key)
    &&& after.active.get(key) is None
    &&& forall|other: usize|
        other != key ==> #[trigger] after.active.get(other) == before.active.get(other)
    &&& task is Some ==> after.active.vacant == before.active.vacant.push(key)
    &&& task is None ==> after.active == before.active
    &&& after == (StateView { active: after.active, ..before })
}

/// The oldest task in the global queue is taken to be run by the ticker `me`, which is awake then,
/// and another ticker is notified. There is no such task only if the queue is empty.
pub open spec fn takes_oldest<W>(
    before: StateView<W>,
    me: usize,
    task: u64,
    wake: Option<W>,
    after: StateView<W>,
) -> bool {
    &&& before.queue.len() > 0
    &&& task == before.queue[0]
    &&& before.queue == seq![task] + after.queue
    &&& after.local_queues == before.local_queues
    &&& after.active == before.active
    &&& awakes(before.sleepers, me, after.sleepers)
    &&& notifies(before.sleepers, me, given(wake), after.sleepers)
}

/// The active tasks, in the order of their keys.
pub open spec fn in_key_order(active: ActiveView, tasks: Seq<u64>) -> bool {
    exists|keys: Seq<int>| #[trigger] is_key_order(active, tasks, keys)
}

/// The keys of the active tasks, in their order.
pub open spec fn is_key_order(active: ActiveView, tasks: Seq<u64>, keys: Seq<int>) -> bool {
    &&& keys.len() == tasks.len()
    &&& forall|i: int|
        0 <= i < keys.len() ==> 0 <= #[trigger] keys[i] < active.slots.len()
            && active.slots[keys[i]] == Some(tasks[i])
    &&& forall|i: int, j: int| 0 <= i < j < keys.len() ==> #[trigger] keys[i] < #[trigger] keys[j]
    &&& forall|key: int|
        0 <= key < active.slots.len() && (#[trigger] active.slots[key]) is Some ==> keys.contains(
            key,
        )
}

/// All active tasks are taken out, in the order of their keys. Nothing else changes.
pub open spec fn drains<W>(before: StateView<W>, tasks: Seq<u64>, after: StateView<W>) -> bool {
    &&& in_key_order(before.active, tasks)
    &&& forall|key: usize| (#[trigger] after.active.get(key)) is None
    &&& after == (StateView { active: after.active, ..before })
}

/// The oldest task is taken out of the global queue, if there is one. Nothing else changes.
pub open spec fn pops<W>(before: StateView<W>, task: Option<u64>, after: StateView<W>) -> bool {
    &&& match task {
        Some(oldest) => before.queue == seq![oldest] + after.queue,
        None => before.queue.len() == 0 && after.queue.len() == 0,
    }
    &&& after == (StateView { queue: after.queue, ..before })
}

/// A ticker that is dropped sleeps no more. If it was notified, someone else is notified in its
/// place; if it was not, nobody is woken.
pub open spec fn drops_ticker<W>(
    before: StateView<W>,
    me: usize,
    wake: Option<W>,
    after: StateView<W>,
) -> bool {
    &&& same_tasks(before, after)
    &&& awakes(before.sleepers, me, after.sleepers)
    &&& hands_out(before.sleepers, me, given(wake), after.sleepers)
    &&& if me != 0 && !before.sleepers.listed(me) {
        notifies(before.sleepers, me, given(wake), after.sleepers)
    } else {
        wake is None
    }
}

/// As many tasks move as make half of `n`, rounded up, but no more than there is `room` for.
pub open spec fn fair_share(moved: int, n: int, room: int) -> bool {
    &&& 0 <= moved <= room
    &&& 2 * moved <= n + 1
    &&& moved < room ==> 2 * moved >= n
}

/// Tasks move from the front of one queue to the back of another one, half of them rounded up, but
/// no more than fit.
pub open spec fn steals(
    from: Seq<u64>,
    to: Seq<u64>,
    capacity: Option<usize>,
    from_after: Seq<u64>,
    to_after: Seq<u64>,
) -> bool {
    let moved = to_after.len() - to.len();
    &&& to_after + from_after == to + from
    &&& fair_share(
        moved,
        from.len() as int,
        match capacity {
            Some(cap) => cap - to.len(),
            None => from.len() as int,
        },
    )
}

/// How many tasks a local queue takes.
pub open spec fn local_capacity() -> Option<usize> {
    Some(512)
}

/// A runner with an empty queue takes a task out of a queue that holds `tasks`: it gets the oldest
/// one, half of them rounded up are gone, and those behind the one it got are in its queue, in
/// their order.
pub open spec fn robs(tasks: Seq<u64>, task: u64, left: Seq<u64>, own: Seq<u64>) -> bool {
    &&& tasks == seq![task] + own + left
    &&& tasks.len() <= 2 * (1 + own.len()) <= tasks.len() + 1
}

/// The queues of the runners are as before, but for those at the positions `a` and `b`.
pub open spec fn same_queues_but<W>(
    before: StateView<W>,
    after: StateView<W>,
    a: int,
    b: int,
) -> bool {
    &&& after.local_queues.len() == before.local_queues.len()
    &&& forall|i: int|
        0 <= i < after.local_queues.len() ==> (#[trigger] after.local_queues[i]).0
            == before.local_queues[i].0
    &&& forall|i: int|
        0 <= i < after.local_queues.len() && i != a && i != b ==> (#[trigger] after.local_queues[i])
            == before.local_queues[i]
}

/// The runner at position `own` finds a task: the oldest of its own; or the oldest in the global
/// queue, of which it then steals; or the oldest of another runner, of which it then has half.
pub open spec fn finds<W>(before: StateView<W>, own: int, task: u64, after: StateView<W>) -> bool {
    let tasks = before.local_queues[own].1;
    let own_after = after.local_queues[own].1;
    if tasks.len() > 0 {
        &&& tasks == seq![task] + own_after
        &&& after.queue == before.queue
        &&& same_queues_but(before, after, own, own)
    } else if before.queue.len() > 0 {
        &&& task == before.queue[0]
        &&& steals(
            before.queue.drop_first(),
            tasks,
            local_capacity(),
            after.queue,
            own_after,
        )
        &&& same_queues_but(before, after, own, own)
    } else {
        &&& after.queue.len() == 0
        &&& exists|from: int|
            {
                &&& 0 <= from < before.local_queues.len()
                &&& from != own
                &&& robs(
                    (#[trigger] before.local_queues[from]).1,
                    task,
                    after.local_queues[from].1,
                    own_after,
                )
                &&& same_queues_but(before, after, own, from)
            }
    }
}

/// The runner at position `own` lines up tasks of the global queue behind its own.
pub open spec fn refills<W>(before: StateView<W>, own: int, after: StateView<W>) -> bool {
    &&& steals(
        before.queue,
        before.local_queues[own].1,
        local_capacity(),
        after.queue,
        after.local_queues[own].1,
    )
    &&& same_queues_but(before, after, own, own)
}

/// The runner at position `own` gets a task to run, and if it is due, steals from the global queue
/// besides.
pub open spec fn serves<W>(
    before: StateView<W>,
    own: int,
    due: bool,
    task: u64,
    after: StateView<W>,
) -> bool {
    exists|found: StateView<W>|
        {
            &&& #[trigger] finds(before, own, task, found)
            &&& if due {
                refills(found, own, after)
            } else {
                after.queue == found.queue && after.local_queues == found.local_queues
            }
        }
}

} // verus!
