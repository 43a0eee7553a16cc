//! What is counted and shown of an executor.

use crate::active::Active;
use crate::debug::{
    debug_executor, debug_state, DebugExecutor, DebugState, Field, StateParts, TryLock,
};
use crate::executor::Executor;
use crate::laws::active::lemma_occupied_len;
use crate::laws::calls::{lemma_activates, lemma_key_order};
use crate::laws::effects::{activates, in_key_order, is_key_order};
use crate::laws::sleeping::{law_count, sleeping_ids};
use crate::sleepers::Sleepers;
use crate::state::State;
use vstd::prelude::*;

verus! {

/// Numbers are those of the tasks and of the tickers that they are about.
pub proof fn law_counts<W>()
    ensures
        forall|state: &State<W>, n: usize|
            state.wf() && #[trigger] call_ensures(State::<W>::sleeping, (state,), n) ==> n
                == sleeping_ids(state@.sleepers).len(),
        forall|sleepers: &Sleepers<W>, n: usize|
            sleepers@.wf() && #[trigger] call_ensures(Sleepers::<W>::count, (sleepers,), n) ==> n
                == sleeping_ids(sleepers@).len(),
        forall|state: &State<W>, n: usize| #[trigger]
            call_ensures(State::<W>::active_tasks, (state,), n) ==> exists|tasks: Seq<u64>|
                n == tasks.len() && #[trigger] in_key_order(state@.active, tasks),
        forall|state: &State<W>, n: usize| #[trigger]
            call_ensures(State::<W>::global_tasks, (state,), n) ==> n == state@.queue.len(),
        forall|state: &State<W>, lens: Vec<usize>| #[trigger]
            call_ensures(State::<W>::local_runners, (state,), lens) ==> {
                &&& lens@.len() == state@.local_queues.len()
                &&& forall|i: int|
                    0 <= i < lens@.len() ==> #[trigger] lens@[i] == state@.local_queues[i].1.len()
            },
{
    assert forall|state: &State<W>, n: usize|
        state.wf() && #[trigger] call_ensures(State::<W>::sleeping, (state,), n) implies n
        == sleeping_ids(state@.sleepers).len() by {
        law_count(state@.sleepers);
    }
    assert forall|sleepers: &Sleepers<W>, n: usize|
        sleepers@.wf() && #[trigger] call_ensures(Sleepers::<W>::count, (sleepers,), n) implies n
        == sleeping_ids(sleepers@).len() by {
        law_count(sleepers@);
    }
    assert forall|state: &State<W>, n: usize| #[trigger]
        call_ensures(State::<W>::active_tasks, (state,), n) implies exists|tasks: Seq<u64>|
        n == tasks.len() && #[trigger] in_key_order(state@.active, tasks) by {
        let keys = lemma_key_order(state@.active.slots);
        assert(is_key_order(state@.active, state@.active.tasks(), keys));
        assert(in_key_order(state@.active, state@.active.tasks()));
    }
    assert forall|state: &State<W>, lens: Vec<usize>| #[trigger]
        call_ensures(State::<W>::local_runners, (state,), lens) implies {
        &&& lens@.len() == state@.local_queues.len()
        &&& forall|i: int|
            0 <= i < lens@.len() ==> #[trigger] lens@[i] == state@.local_queues[i].1.len()
    } by {
        let wide = lens@.map_values(|n: usize| n as nat);
        assert(wide == state@.local_lens());
        assert(lens@.len() == wide.len());
        assert forall|i: int| 0 <= i < lens@.len() implies #[trigger] lens@[i]
            == state@.local_queues[i].1.len() by {
            assert(wide[i] == lens@[i]);
            assert(state@.local_lens()[i] == state@.local_queues[i].1.len());
        }
    }
}

/// An executor that was used shows the numbers of its state, and one that was not shows nothing.
pub proof fn law_parts<W>()
    ensures
        forall|executor: &Executor<W>, parts: Option<StateParts>| #[trigger]
            call_ensures(Executor::<W>::parts, (executor,), parts) ==> match (executor@, parts) {
                (None, None) => true,
                (Some(state), Some(parts)) => {
                    &&& parts.active matches TryLock::Acquired(n) && exists|tasks: Seq<u64>|
                        n == tasks.len() && #[trigger] in_key_order(state.active, tasks)
                    &&& parts.global_tasks == state.queue.len()
                    &&& parts.local_runners matches TryLock::Acquired(lens) && {
                        &&& lens@.len() == state.local_queues.len()
                        &&& forall|i: int|
                            0 <= i < lens@.len() ==> #[trigger] lens@[i]
                                == state.local_queues[i].1.len()
                    }
                    &&& parts.sleepers matches TryLock::Acquired(n) && n == state.sleepers.count
                },
                _ => false,
            },
{
    assert forall|executor: &Executor<W>, parts: Option<StateParts>| #[trigger]
        call_ensures(Executor::<W>::parts, (executor,), parts) implies match (executor@, parts) {
        (None, None) => true,
        (Some(state), Some(parts)) => {
            &&& parts.active matches TryLock::Acquired(n) && exists|tasks: Seq<u64>|
                n == tasks.len() && #[trigger] in_key_order(state.active, tasks)
            &&& parts.global_tasks == state.queue.len()
            &&& parts.local_runners matches TryLock::Acquired(lens) && {
                &&& lens@.len() == state.local_queues.len()
                &&& forall|i: int|
                    0 <= i < lens@.len() ==> #[trigger] lens@[i] == state.local_queues[i].1.len()
            }
            &&& parts.sleepers matches TryLock::Acquired(n) && n == state.sleepers.count
        },
        _ => false,
    } by {
        if let Some(state) = executor@ {
            let keys = lemma_key_order(state.active.slots);
            assert(is_key_order(state.active, state.active.tasks(), keys));
            assert(in_key_order(state.active, state.active.tasks()));
            if let TryLock::Acquired(lens) = parts->0.local_runners {
                let wide = lens@.map_values(|n: usize| n as nat);
                assert(wide == state.local_lens());
                assert(lens@.len() == wide.len());
                assert forall|i: int| 0 <= i < lens@.len() implies #[trigger] lens@[i]
                    == state.local_queues[i].1.len() by {
                    assert(wide[i] == lens@[i]);
                    assert(state.local_lens()[i] == state.local_queues[i].1.len());
                }
            }
        }
    }
}

/// Whether a field shows a placeholder.
pub open spec fn is_text(field: Field, placeholder: Seq<char>) -> bool {
    field matches Field::Text(text) && text@ == placeholder
}

/// A part is shown as it is if it can be got at, and by a placeholder if someone else holds it. A
/// poisoned part is shown by a placeholder, but for the number of active tasks, which is shown
/// then too.
pub open spec fn shows(parts: StateParts, shown: DebugState) -> bool {
    &&& shown.global_tasks == Field::Number(parts.global_tasks)
    &&& match parts.active {
        TryLock::Acquired(n) => shown.active == Field::Number(n),
        TryLock::Poisoned(n) => shown.active == Field::Number(n),
        TryLock::WouldBlock => is_text(shown.active, "<locked>"@),
    }
    &&& match parts.local_runners {
        TryLock::Acquired(lens) => shown.local_runners matches Field::List(list) && list@ == lens@,
        TryLock::Poisoned(_) => is_text(shown.local_runners, "<poisoned>"@),
        TryLock::WouldBlock => is_text(shown.local_runners, "<locked>"@),
    }
    &&& match parts.sleepers {
        TryLock::Acquired(n) => shown.sleepers == Field::Number(n),
        TryLock::Poisoned(_) => is_text(shown.sleepers, "<poisoned>"@),
        TryLock::WouldBlock => is_text(shown.sleepers, "<locked>"@),
    }
}

/// What is shown of a state, and of an executor that has none yet.
pub proof fn law_shown()
    ensures
        forall|parts: StateParts, shown: DebugState| #[trigger]
            call_ensures(debug_state, (parts,), shown) ==> shows(parts, shown),
        forall|parts: Option<StateParts>, shown: DebugExecutor| #[trigger]
            call_ensures(debug_executor, (parts,), shown) ==> match parts {
                Some(parts) => shown matches DebugExecutor::State(state) && shows(parts, state),
                None => shown matches DebugExecutor::Uninitialized(field) && is_text(
                    field,
                    "<uninitialized>"@,
                ),
            },
{
}

/// The table of active tasks: a task is stored under a key that was free, taken out under its key,
/// and all of them are taken out in the order of their keys.
pub proof fn law_active_table()
    ensures
        forall|active: &mut Active, task: u64, key: usize|
            active@.wf() && #[trigger] call_ensures(Active::insert, (active, task), key)
                ==> activates(active@, task, key, final(active)@),
        forall|active: &mut Active, key: usize, task: Option<u64>|
            active@.wf() && #[trigger] call_ensures(Active::try_remove, (active, key), task) ==> {
                &&& task == active@.get(key)
                &&& final(active)@.get(key) is None
                &&& forall|other: usize|
                    other != key ==> #[trigger] final(active)@.get(other) == active@.get(other)
                &&& task is Some ==> final(active)@.vacant == active@.vacant.push(key)
                &&& task is None ==> final(active)@ == active@
            },
        forall|active: &mut Active, tasks: Vec<u64>| #[trigger]
            call_ensures(Active::drain, (active,), tasks) ==> {
                &&& in_key_order(active@, tasks@)
                &&& forall|key: usize| (#[trigger] final(active)@.get(key)) is None
            },
        forall|active: &Active, n: usize| #[trigger]
            call_ensures(Active::len, (active,), n) ==> exists|tasks: Seq<u64>|
                n == tasks.len() && #[trigger] in_key_order(active@, tasks),
        forall|active: &Active, empty: bool| #[trigger]
            call_ensures(Active::is_empty, (active,), empty) ==> (empty <==> forall|key: int|
                0 <= key < active@.slots.len() ==> (#[trigger] active@.slots[key]) is None),
{
    assert forall|active: &mut Active, task: u64, key: usize|
        active@.wf() && #[trigger] call_ensures(Active::insert, (active, task), key) implies activates(
        active@,
        task,
        key,
        final(active)@,
    ) by {
        lemma_activates(active@, task, key);
    }
    assert forall|active: &mut Active, key: usize, task: Option<u64>|
        active@.wf() && #[trigger] call_ensures(Active::try_remove, (active, key), task) implies {
        &&& task == active@.get(key)
        &&& final(active)@.get(key) is None
        &&& forall|other: usize|
            other != key ==> #[trigger] final(active)@.get(other) == active@.get(other)
        &&& task is Some ==> final(active)@.vacant == active@.vacant.push(key)
        &&& task is None ==> final(active)@ == active@
    } by {
        active@.lemma_removed(key);
    }
    assert forall|active: &mut Active, tasks: Vec<u64>| #[trigger]
        call_ensures(Active::drain, (active,), tasks) implies {
        &&& in_key_order(active@, tasks@)
        &&& forall|key: usize| (#[trigger] final(active)@.get(key)) is None
    } by {
        let keys = lemma_key_order(active@.slots);
        assert(is_key_order(active@, tasks@, keys));
    }
    assert forall|active: &Active, n: usize| #[trigger]
        call_ensures(Active::len, (active,), n) implies exists|tasks: Seq<u64>|
        n == tasks.len() && #[trigger] in_key_order(active@, tasks) by {
        let keys = lemma_key_order(active@.slots);
        assert(is_key_order(active@, active@.tasks(), keys));
        assert(in_key_order(active@, active@.tasks()));
    }
    assert forall|active: &Active, empty: bool| #[trigger]
        call_ensures(Active::is_empty, (active,), empty) implies (empty <==> forall|key: int|
        0 <= key < active@.slots.len() ==> (#[trigger] active@.slots[key]) is None) by {
        lemma_occupied_len(active@.slots);
    }
}

} // verus!
