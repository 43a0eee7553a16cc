//! Spawning many tasks.

use crate::active::ActiveView;
use crate::spawn::{batch_end, yields_after, SPAWN_BATCH};
use crate::state::StateView;
use vstd::prelude::*;

verus! {

/// Spawning many tasks is spawning each of them: one task is spawned as by itself.
pub proof fn law_spawn_many_of_one<W>(state: StateView<W>, task: u64)
    ensures
        state.spawned_many(seq![task]) == state.spawned(task),
        state.spawned_many_wake(seq![task]) == state.notification(),
{
    assert(seq![task] =~= Seq::<u64>::empty().push(task));
    state.lemma_spawned_many(Seq::empty(), task);
}

/// Inserting tasks in two batches is inserting them at once.
proof fn lemma_inserted_many(active: ActiveView, first: Seq<u64>, second: Seq<u64>)
    ensures
        active.inserted_many(first + second) == active.inserted_many(first).inserted_many(second),
    decreases second.len(),
{
    if second.len() == 0 {
        assert(first + second =~= first);
    } else {
        lemma_inserted_many(active, first, second.drop_last());
        assert((first + second).drop_last() =~= first + second.drop_last());
    }
}

/// It does not matter where a list of tasks is cut into batches: the tasks get the same keys and
/// leave the same state, and at most one waker is handed out.
pub proof fn law_spawn_many_in_batches<W>(
    state: StateView<W>,
    first: Seq<u64>,
    second: Seq<u64>,
)
    ensures
        state.spawned_many(first + second) == state.spawned_many(first).spawned_many(second),
        state.active.next_keys(first + second) == state.active.next_keys(first)
            + state.spawned_many(first).active.next_keys(second),
        first.len() > 0 ==> {
            &&& state.spawned_many_wake(first + second) == state.spawned_many_wake(first)
            &&& state.spawned_many(first).spawned_many_wake(second) is None
        },
{
    let all = first + second;
    lemma_inserted_many(state.active, first, second);
    assert(state.queue + all =~= state.queue + first + second);
    assert(first.len() == 0 ==> all =~= second);
    assert(second.len() == 0 ==> all =~= first);
    assert(state.spawned_many(all) =~= state.spawned_many(first).spawned_many(second));
    let keys = state.active.next_keys(first) + state.spawned_many(first).active.next_keys(second);
    assert forall|i: int| 0 <= i < all.len() implies state.active.next_keys(all)[i] == keys[i] by {
        if i < first.len() {
            assert(all.take(i) =~= first.take(i));
        } else {
            assert(all.take(i) =~= first + second.take(i - first.len()));
            lemma_inserted_many(state.active, first, second.take(i - first.len()));
        }
    }
    assert(state.active.next_keys(all) =~= keys);
}

/// Inserting tasks leaves those that are active under their keys.
proof fn lemma_inserted_many_keeps(active: ActiveView, tasks: Seq<u64>, key: usize)
    requires
        active.wf(),
        active.get(key) is Some,
    ensures
        active.inserted_many(tasks).wf(),
        active.inserted_many(tasks).get(key) == active.get(key),
    decreases tasks.len(),
{
    if tasks.len() > 0 {
        lemma_inserted_many_keeps(active, tasks.drop_last(), key);
        active.inserted_many(tasks.drop_last()).lemma_inserted(tasks.last());
    }
}

/// Inserting tasks leaves the table well formed.
pub(crate) proof fn lemma_inserted_many_wf(active: ActiveView, tasks: Seq<u64>)
    requires
        active.wf(),
    ensures
        active.inserted_many(tasks).wf(),
    decreases tasks.len(),
{
    if tasks.len() > 0 {
        lemma_inserted_many_wf(active, tasks.drop_last());
        active.inserted_many(tasks.drop_last()).lemma_inserted(tasks.last());
    }
}

/// Tasks that are spawned together get different keys, none of which an active task had, and
/// each is active under its own.
pub proof fn law_spawned_keys(active: ActiveView, tasks: Seq<u64>, keys: Seq<usize>)
    requires
        active.wf(),
        keys.map_values(|key: usize| key as int) == active.next_keys(tasks),
    ensures
        keys.no_duplicates(),
        keys.len() == tasks.len(),
        forall|i: int|
            0 <= i < keys.len() ==> active.get(#[trigger] keys[i]) is None && active.inserted_many(
                tasks,
            ).get(keys[i]) == Some(tasks[i]),
{
    let wide = active.next_keys(tasks);
    assert(keys.len() == keys.map_values(|key: usize| key as int).len());
    assert forall|i: int| 0 <= i < tasks.len() implies keys[i] as int == #[trigger] wide[i] by {
        assert(keys.map_values(|key: usize| key as int)[i] == keys[i] as int);
    }
    assert forall|i: int, j: int| 0 <= i < j <= keys.len() implies (#[trigger] active.inserted_many(
        tasks.take(j),
    )).get(#[trigger] keys[i]) == Some(tasks[i]) by {
        assert(wide[i] == active.inserted_many(tasks.take(i)).next_key());
        let before = active.inserted_many(tasks.take(i));
        lemma_inserted_many_wf(active, tasks.take(i));
        before.lemma_inserted(tasks[i]);
        assert(tasks.take(i + 1).drop_last() =~= tasks.take(i));
        let stored = active.inserted_many(tasks.take(i + 1));
        assert(stored == before.inserted(tasks[i]));
        assert(stored.get(keys[i]) == Some(tasks[i]));
        assert(tasks.take(j) =~= tasks.take(i + 1) + tasks.subrange(i + 1, j));
        lemma_inserted_many(active, tasks.take(i + 1), tasks.subrange(i + 1, j));
        lemma_inserted_many_keeps(stored, tasks.subrange(i + 1, j), keys[i]);
    }
    assert forall|i: int| 0 <= i < keys.len() implies active.inserted_many(tasks.take(i)).get(
        #[trigger] keys[i],
    ) is None by {
        assert(wide[i] == active.inserted_many(tasks.take(i)).next_key());
        lemma_inserted_many_wf(active, tasks.take(i));
        active.inserted_many(tasks.take(i)).lemma_inserted(tasks[i]);
        assert(active.inserted_many(tasks.take(i)).inserted(tasks[i]).get(keys[i]) is Some);
    }
    assert forall|i: int, j: int| 0 <= i < j < keys.len() implies keys[i] != keys[j] by {
        assert(active.inserted_many(tasks.take(j)).get(keys[i]) == Some(tasks[i]));
        assert(active.inserted_many(tasks.take(j)).get(keys[j]) is None);
    }
    assert(tasks.take(tasks.len() as int) =~= tasks);
    assert forall|i: int| 0 <= i < keys.len() implies active.get(#[trigger] keys[i])
        is None && active.inserted_many(tasks).get(keys[i]) == Some(tasks[i]) by {
        assert(active.inserted_many(tasks.take(i)).get(keys[i]) is None);
        if active.get(keys[i]) is Some {
            lemma_inserted_many_keeps(active, tasks.take(i), keys[i]);
        }
        assert(active.inserted_many(tasks.take(tasks.len() as int)).get(keys[i]) == Some(tasks[i]));
    }
}

/// Between two positions that are a batch apart, the batch does not end early.
proof fn lemma_batch_end_from(from: int, k: int, len: int)
    requires
        k >= 0,
        from <= 2 + SPAWN_BATCH * k,
        from > 2 + SPAWN_BATCH * (k - 1),
        from >= 0,
        from <= len,
    ensures
        from < 2 + SPAWN_BATCH * k ==> batch_end(from, len) == if len < 2 + SPAWN_BATCH * k {
            len
        } else {
            2 + SPAWN_BATCH * k
        },
    decreases len - from,
{
    if from < len && from < 1 + SPAWN_BATCH * k {
        assert(!yields_after(from));
        lemma_batch_end_from(from + 1, k, len);
    }
}

/// Other threads get at the executor after the first two tasks, and from then on after every
/// [`SPAWN_BATCH`] tasks.
pub proof fn law_batches(len: int, k: int)
    requires
        0 <= len,
        0 <= k,
    ensures
        batch_end(0, len) == if len < 2 {
            len
        } else {
            2
        },
        2 + SPAWN_BATCH * k <= len ==> batch_end(2 + SPAWN_BATCH * k, len) == if len < 2
            + SPAWN_BATCH * (k + 1) {
            len
        } else {
            2 + SPAWN_BATCH * (k + 1)
        },
{
    lemma_batch_end_from(0, 0, len);
    let from = 2 + SPAWN_BATCH * k;
    if from < len {
        assert(!yields_after(from));
        lemma_batch_end_from(from + 1, k + 1, len);
    }
}

} // verus!
