//! Spawning many tasks at once.

use crate::active::ActiveView;
use crate::state::{State, StateView};
use vstd::prelude::*;

verus! {

/// How many tasks are spawned before other threads get at the executor.
pub const SPAWN_BATCH: usize = 500;

/// Whether other threads get at the executor after the task at position `i` was spawned.
pub open spec fn yields_after(i: int) -> bool {
    i % (SPAWN_BATCH as int) == 1
}

/// The end of the batch that begins at position `from` in a list of `len` tasks: the first
/// position behind which other threads get at the executor, or the end of the list.
pub open spec fn batch_end(from: int, len: int) -> int
    decreases len - from,
{
    if from >= len {
        from
    } else if yields_after(from) {
        from + 1
    } else {
        batch_end(from + 1, len)
    }
}

/// A batch lies within the list, and takes at least one task if there is one left.
pub proof fn lemma_batch_end(from: int, len: int)
    requires
        from <= len,
    ensures
        from <= batch_end(from, len) <= len,
        from < len ==> from < batch_end(from, len),
        forall|i: int| from <= i < batch_end(from, len) - 1 ==> !#[trigger] yields_after(i),
        batch_end(from, len) < len ==> yields_after(batch_end(from, len) - 1),
    decreases len - from,
{
    if from < len && !yields_after(from) {
        lemma_batch_end(from + 1, len);
    }
}

impl ActiveView {
    /// The table with more tasks.
    pub open spec fn inserted_many(self, tasks: Seq<u64>) -> Self
        decreases tasks.len(),
    {
        if tasks.len() == 0 {
            self
        } else {
            self.inserted_many(tasks.drop_last()).inserted(tasks.last())
        }
    }

    /// The keys that `tasks` get if they are stored one after the other.
    pub open spec fn next_keys(self, tasks: Seq<u64>) -> Seq<int> {
        Seq::new(tasks.len(), |i: int| self.inserted_many(tasks.take(i)).next_key())
    }
}

impl<W> StateView<W> {
    /// The state after `tasks` were spawned.
    pub open spec fn spawned_many(self, tasks: Seq<u64>) -> Self {
        if tasks.len() == 0 {
            self
        } else {
            StateView {
                active: self.active.inserted_many(tasks),
                queue: self.queue + tasks,
                ..self
            }.after_notify()
        }
    }

    /// The waker handed out when `tasks` are spawned: at most one.
    pub open spec fn spawned_many_wake(self, tasks: Seq<u64>) -> Option<W> {
        if tasks.len() == 0 {
            None
        } else {
            self.notification()
        }
    }

    /// Spawning many tasks is spawning them one after the other.
    pub proof fn lemma_spawned_many(self, tasks: Seq<u64>, task: u64)
        ensures
            self.spawned_many(tasks.push(task)) == self.spawned_many(tasks).spawned(task),
    {
        assert(tasks.push(task).drop_last() =~= tasks);
        assert(self.queue + tasks.push(task) =~= (self.queue + tasks).push(task));
        assert(self.spawned_many(tasks.push(task)) =~= self.spawned_many(tasks).spawned(task));
    }
}

/// Several spawned tasks.
pub struct SpawnedMany<W> {
    /// The keys of the tasks among the active tasks.
    pub keys: Vec<usize>,
    /// The waker of the ticker that was notified.
    pub wake: Option<W>,
}

/// Returns `true` if other threads should get at the executor after the task at position `i`
/// was spawned.
///
/// Yield the lock every once in a while to ease contention.
pub fn yield_after(i: usize) -> (yields: bool)
    ensures
        yields == yields_after(i as int),
{
    i % SPAWN_BATCH == 1
}

impl<W> State<W> {
    /// Spawns the tasks from position `from` up to position `to`, in one go.
    pub fn spawn_range(&mut self, tasks: &Vec<u64>, from: usize, to: usize) -> (spawned:
        SpawnedMany<W>)
        requires
            old(self).wf(),
            from <= to <= tasks.len(),
        ensures
            ({
                let range = tasks@.subrange(from as int, to as int);
                &&& spawned.keys@.map_values(|key: usize| key as int)
                    == old(self)@.active.next_keys(range)
                &&& spawned.wake == old(self)@.spawned_many_wake(range)
                &&& final(self)@ == old(self)@.spawned_many(range)
            }),
            final(self).wf(),
    {
        let ghost before = self@;
        let ghost range = tasks@.subrange(from as int, to as int);
        let mut keys: Vec<usize> = Vec::new();
        let mut wake: Option<W> = None;
        let mut i: usize = from;
        assert(range.take(0) =~= Seq::empty());
        while i < to
            invariant
                from <= i <= to <= tasks.len(),
                range == tasks@.subrange(from as int, to as int),
                before.wf(),
                self.wf(),
                self@ == before.spawned_many(range.take(i - from)),
                wake == before.spawned_many_wake(range.take(i - from)),
                keys@.len() == i - from,
                forall|j: int|
                    0 <= j < i - from ==> (#[trigger] keys@[j]) as int
                        == before.active.inserted_many(range.take(j)).next_key(),
            decreases to - i,
        {
            let ghost done = range.take(i - from);
            proof {
                before.lemma_notify();
                before.lemma_spawned_many(done, tasks@[i as int]);
                assert(range.take(i - from + 1) =~= done.push(tasks@[i as int]));
            }
            let spawned = self.spawn_inner(tasks[i]);
            keys.push(spawned.key);
            if spawned.wake.is_some() {
                wake = spawned.wake;
            }
            i = i + 1;
        }
        proof {
            assert(range.take(to - from) =~= range);
            assert(keys@.map_values(|key: usize| key as int) =~= before.active.next_keys(range));
        }
        SpawnedMany { keys, wake }
    }
}

} // verus!
