//! The table of active tasks: those whose future has not finished.

use slab::Slab;
use vstd::prelude::*;

verus! {

/// `slab::Slab`, a table that picks the key of each value it stores.
#[verifier::external_type_specification]
#[verifier::external_body]
#[verifier::reject_recursive_types(T)]
pub struct ExSlab<T>(slab::Slab<T>);

/// The slots of a table, by key. A slot without a task is vacant.
pub uninterp spec fn slab_slots(slab: Slab<u64>) -> Seq<Option<u64>>;

/// The stack of keys of the vacant slots in a table; the last one is used next.
pub uninterp spec fn slab_vacant(slab: Slab<u64>) -> Seq<usize>;

/// The tasks in the slots, in the order of their keys.
pub open spec fn occupied(slots: Seq<Option<u64>>) -> Seq<u64>
    decreases slots.len(),
{
    if slots.len() == 0 {
        Seq::empty()
    } else {
        match slots.last() {
            Some(task) => occupied(slots.drop_last()).push(task),
            None => occupied(slots.drop_last()),
        }
    }
}

/// `Slab::new`: a table without slots.
#[verifier::external_body]
fn slab_new() -> (slab: Slab<u64>)
    ensures
        slab_slots(slab) == Seq::<Option<u64>>::empty(),
        slab_vacant(slab) == Seq::<usize>::empty(),
{
    Slab::new()
}

/// `Slab::insert`: stores `task` in the slot that was vacated last, or in a new slot at the end
/// if none is vacant. Returns the key of the slot.
#[verifier::external_body]
fn slab_insert(slab: &mut Slab<u64>, task: u64) -> (key: usize)
    ensures
        slab_vacant(*old(slab)).len() == 0 ==> {
            &&& key == slab_slots(*old(slab)).len()
            &&& slab_slots(*final(slab)) == slab_slots(*old(slab)).push(Some(task))
            &&& slab_vacant(*final(slab)) == slab_vacant(*old(slab))
        },
        slab_vacant(*old(slab)).len() > 0 ==> {
            &&& key == slab_vacant(*old(slab)).last()
            &&& slab_slots(*final(slab)) == slab_slots(*old(slab)).update(key as int, Some(task))
            &&& slab_vacant(*final(slab)) == slab_vacant(*old(slab)).drop_last()
        },
{
    slab.insert(task)
}

/// `Slab::try_remove`: vacates the slot `key` and returns its task. Does nothing if there is no
/// such slot or it is vacant.
#[verifier::external_body]
fn slab_try_remove(slab: &mut Slab<u64>, key: usize) -> (task: Option<u64>)
    ensures
        task == if key < slab_slots(*old(slab)).len() {
            slab_slots(*old(slab))[key as int]
        } else {
            None
        },
        slab_slots(*final(slab)) == if task is Some {
            slab_slots(*old(slab)).update(key as int, None)
        } else {
            slab_slots(*old(slab))
        },
        slab_vacant(*final(slab)) == if task is Some {
            slab_vacant(*old(slab)).push(key)
        } else {
            slab_vacant(*old(slab))
        },
{
    slab.try_remove(key)
}

/// `Slab::drain`: takes all tasks, in the order of their keys, and all slots.
#[verifier::external_body]
fn slab_drain(slab: &mut Slab<u64>) -> (tasks: Vec<u64>)
    ensures
        tasks@ == occupied(slab_slots(*old(slab))),
        slab_slots(*final(slab)) == Seq::<Option<u64>>::empty(),
        slab_vacant(*final(slab)) == Seq::<usize>::empty(),
{
    slab.drain().collect()
}

/// `Slab::len`: the number of tasks in the table.
#[verifier::external_body]
fn slab_len(slab: &Slab<u64>) -> (n: usize)
    ensures
        n == occupied(slab_slots(*slab)).len(),
{
    slab.len()
}

/// `Slab::is_empty`: whether the table holds no task.
#[verifier::external_body]
fn slab_is_empty(slab: &Slab<u64>) -> (empty: bool)
    ensures
        empty == (occupied(slab_slots(*slab)).len() == 0),
{
    slab.is_empty()
}

/// What a table of active tasks holds.
#[verifier::ext_equal]
pub struct ActiveView {
    /// The slots, by key. A slot without a task is vacant.
    pub slots: Seq<Option<u64>>,
    /// The keys of the vacant slots, the next one to be used last.
    pub vacant: Seq<usize>,
}

impl ActiveView {
    /// The table without slots.
    pub open spec fn empty() -> Self {
        ActiveView { slots: Seq::empty(), vacant: Seq::empty() }
    }

    /// The stack of vacant keys lists each vacant slot once, and nothing else.
    pub open spec fn wf(self) -> bool {
        &&& self.vacant.no_duplicates()
        &&& forall|i: int|
            0 <= i < self.vacant.len() ==> (#[trigger] self.vacant[i]) < self.slots.len()
                && self.slots[self.vacant[i] as int] is None
        &&& forall|key: usize|
            key < self.slots.len() && (#[trigger] self.slots[key as int]) is None
                ==> self.vacant.contains(key)
    }

    /// The task under `key`.
    pub open spec fn get(self, key: usize) -> Option<u64> {
        if key < self.slots.len() {
            self.slots[key as int]
        } else {
            None
        }
    }

    /// The active tasks, in the order of their keys.
    pub open spec fn tasks(self) -> Seq<u64> {
        occupied(self.slots)
    }

    /// The key that the next task gets.
    pub open spec fn next_key(self) -> int {
        if self.vacant.len() == 0 {
            self.slots.len() as int
        } else {
            self.vacant.last() as int
        }
    }

    /// The table with one more task.
    pub open spec fn inserted(self, task: u64) -> Self {
        if self.vacant.len() == 0 {
            ActiveView { slots: self.slots.push(Some(task)), vacant: self.vacant }
        } else {
            ActiveView {
                slots: self.slots.update(self.next_key(), Some(task)),
                vacant: self.vacant.drop_last(),
            }
        }
    }

    /// The table without the task under `key`.
    pub open spec fn removed(self, key: usize) -> Self {
        if self.get(key) is Some {
            ActiveView {
                slots: self.slots.update(key as int, None),
                vacant: self.vacant.push(key),
            }
        } else {
            self
        }
    }
}

impl ActiveView {
    /// A new task gets a key that no active task has, and leaves the others alone.
    pub proof fn lemma_inserted(self, task: u64)
        requires
            self.wf(),
        ensures
            self.inserted(task).wf(),
            forall|key: usize|
                key == self.next_key() ==> self.get(key) is None && #[trigger] self.inserted(
                    task,
                ).get(key) == Some(task),
            forall|key: usize|
                key != self.next_key() ==> #[trigger] self.inserted(task).get(key) == self.get(key),
    {
        let after = self.inserted(task);
        if self.vacant.len() > 0 {
            assert(self.vacant[self.vacant.len() - 1] < self.slots.len());
            assert forall|key: usize|
                key < after.slots.len() && (#[trigger] after.slots[key as int])
                    is None implies after.vacant.contains(key) by {
                assert(self.slots[key as int] is None);
                let i = choose|i: int| 0 <= i < self.vacant.len() && self.vacant[i] == key;
                assert(after.vacant[i] == key);
            }
        }
    }

    /// Without the task under a key, the key is vacant, and the other tasks are left alone.
    pub proof fn lemma_removed(self, key: usize)
        requires
            self.wf(),
        ensures
            self.removed(key).wf(),
            self.removed(key).get(key) is None,
            forall|other: usize|
                other != key ==> #[trigger] self.removed(key).get(other) == self.get(other),
    {
        let after = self.removed(key);
        if self.get(key) is Some {
            assert forall|k: usize|
                k < after.slots.len() && (#[trigger] after.slots[k as int])
                    is None implies after.vacant.contains(k) by {
                if k == key {
                    assert(after.vacant.last() == key);
                } else {
                    assert(self.slots[k as int] is None);
                    let i = choose|i: int| 0 <= i < self.vacant.len() && self.vacant[i] == k;
                    assert(after.vacant[i] == k);
                }
            }
        }
    }
}

/// The active tasks of an executor.
pub struct Active {
    slab: Slab<u64>,
}

impl View for Active {
    type V = ActiveView;

    closed spec fn view(&self) -> ActiveView {
        ActiveView { slots: slab_slots(self.slab), vacant: slab_vacant(self.slab) }
    }
}

impl Active {
    /// A table without tasks.
    pub fn new() -> (active: Active)
        ensures
            active@ == ActiveView::empty(),
            active@.wf(),
    {
        Active { slab: slab_new() }
    }

    /// Stores a task and returns its key, which no other active task has.
    pub fn insert(&mut self, task: u64) -> (key: usize)
        requires
            old(self)@.wf(),
        ensures
            key == old(self)@.next_key(),
            final(self)@ == old(self)@.inserted(task),
            final(self)@.wf(),
            old(self)@.get(key) is None,
            final(self)@.get(key) == Some(task),
    {
        proof {
            self@.lemma_inserted(task);
        }
        slab_insert(&mut self.slab, task)
    }

    /// Takes out the task under `key`, if there is one.
    pub fn try_remove(&mut self, key: usize) -> (task: Option<u64>)
        requires
            old(self)@.wf(),
        ensures
            task == old(self)@.get(key),
            final(self)@ == old(self)@.removed(key),
            final(self)@.wf(),
    {
        proof {
            self@.lemma_removed(key);
        }
        slab_try_remove(&mut self.slab, key)
    }

    /// Takes out all tasks, in the order of their keys.
    pub fn drain(&mut self) -> (tasks: Vec<u64>)
        ensures
            tasks@ == old(self)@.tasks(),
            final(self)@ == ActiveView::empty(),
            final(self)@.wf(),
    {
        slab_drain(&mut self.slab)
    }

    /// The number of active tasks.
    pub fn len(&self) -> (n: usize)
        ensures
            n == self@.tasks().len(),
    {
        slab_len(&self.slab)
    }

    /// Returns `true` if there are no active tasks.
    pub fn is_empty(&self) -> (empty: bool)
        ensures
            empty == (self@.tasks().len() == 0),
    {
        slab_is_empty(&self.slab)
    }
}

} // verus!
