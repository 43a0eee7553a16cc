//! The state that the tickers and runners of an executor share.
//!
//! Tasks and their futures live outside: here a task is a number. An operation that has to wake
//! a sleeping ticker hands out the waker, and the caller wakes it once it has let go of the
//! state.

use crate::active::{Active, ActiveView};
use crate::queue;
use crate::queue::{queue_capacity, queue_closed, queued};
use crate::sleepers::{Sleepers, SleepersView};
use concurrent_queue::ConcurrentQueue;
use vstd::prelude::*;

verus! {

/// How many tasks a runner's local queue takes.
pub const LOCAL_QUEUE_CAPACITY: usize = 512;

/// What the state of an executor holds.
#[verifier::ext_equal]
pub struct StateView<W> {
    /// The tasks in the global queue, oldest first.
    pub queue: Seq<u64>,
    /// The runners and the tasks in their local queues, oldest first.
    pub local_queues: Seq<(usize, Seq<u64>)>,
    /// Whether a sleeping ticker is notified or no tickers are sleeping.
    pub notified: bool,
    /// The sleeping tickers.
    pub sleepers: SleepersView<W>,
    /// The active tasks.
    pub active: ActiveView,
}

/// Every runner has one local queue, and none overflows.
pub open spec fn local_queues_wf(queues: Seq<(usize, Seq<u64>)>) -> bool {
    &&& forall|i: int|
        0 <= i < queues.len() ==> (#[trigger] queues[i]).1.len() <= LOCAL_QUEUE_CAPACITY
    &&& forall|i: int, j: int|
        0 <= i < j < queues.len() ==> (#[trigger] queues[i]).0 != (#[trigger] queues[j]).0
}

impl<W> StateView<W> {
    /// The state of a new executor.
    pub open spec fn initial() -> Self {
        StateView {
            queue: Seq::empty(),
            local_queues: Seq::empty(),
            notified: true,
            sleepers: SleepersView { count: 0, wakers: Seq::empty(), free_ids: Seq::empty() },
            active: ActiveView::empty(),
        }
    }

    /// The parts are well formed, and the flag says whether a ticker is notified.
    pub open spec fn wf(self) -> bool {
        &&& self.sleepers.wf()
        &&& self.notified == self.sleepers.is_notified()
        &&& self.active.wf()
        &&& local_queues_wf(self.local_queues)
    }

    /// The state with other sleeping tickers.
    pub open spec fn with_sleepers(self, sleepers: SleepersView<W>) -> Self {
        StateView { sleepers, notified: sleepers.is_notified(), ..self }
    }

    /// The state with other tasks in the global queue.
    pub open spec fn with_queue(self, queue: Seq<u64>) -> Self {
        StateView { queue, ..self }
    }

    /// The state with other tasks in the local queue at position `i`.
    pub open spec fn with_local(self, i: int, tasks: Seq<u64>) -> Self {
        StateView {
            local_queues: self.local_queues.update(i, (self.local_queues[i].0, tasks)),
            ..self
        }
    }

    /// The waker that a notification hands out.
    pub open spec fn notification(self) -> Option<W> {
        if self.notified {
            None
        } else {
            self.sleepers.notification()
        }
    }

    /// The state after a notification.
    pub open spec fn after_notify(self) -> Self {
        if self.notified {
            self
        } else {
            StateView { notified: true, sleepers: self.sleepers.after_notify(), ..self }
        }
    }

    /// The state after `task` was scheduled.
    pub open spec fn scheduled(self, task: u64) -> Self {
        self.with_queue(self.queue.push(task)).after_notify()
    }

    /// The state after `task` was spawned.
    pub open spec fn spawned(self, task: u64) -> Self {
        StateView { active: self.active.inserted(task), ..self }.scheduled(task)
    }

    /// The state after the task under `key` finished.
    pub open spec fn finished(self, key: usize) -> Self {
        StateView { active: self.active.removed(key), ..self }
    }

    /// The state after the oldest task in the global queue, if any, was taken to be run.
    pub open spec fn ticked(self) -> Self {
        if self.queue.len() == 0 {
            self
        } else {
            self.with_queue(self.queue.drop_first()).after_notify()
        }
    }

    /// The state without active tasks.
    pub open spec fn drained(self) -> Self {
        StateView { active: ActiveView::empty(), ..self }
    }

    /// The state without the oldest task in the global queue.
    pub open spec fn without_oldest(self) -> Self {
        if self.queue.len() == 0 {
            self
        } else {
            self.with_queue(self.queue.drop_first())
        }
    }

    /// A notification hands out a waker exactly if no ticker is notified and some are sleeping.
    /// After it a ticker is notified, or none is sleeping.
    pub proof fn lemma_notify(self)
        requires
            self.wf(),
        ensures
            self.after_notify().wf(),
            self.after_notify().notified,
            self.notification() is Some <==> !self.notified,
    {
        self.sleepers.lemma_listed_at_most_count();
    }
}

/// A task to be run, with the ticker to be woken before that.
pub struct Tick<W> {
    /// The task.
    pub task: u64,
    /// The waker of another ticker, which picks up where this one left off in case running the
    /// task takes a long time.
    pub wake: Option<W>,
}

/// A spawned task.
pub struct Spawned<W> {
    /// The key of the task among the active tasks.
    pub key: usize,
    /// The waker of the ticker that was notified.
    pub wake: Option<W>,
}

/// A runner's local queue.
pub struct LocalQueue {
    pub(crate) runner: usize,
    pub(crate) tasks: ConcurrentQueue<u64>,
}

impl LocalQueue {
    /// The runner and its tasks.
    pub open(crate) spec fn view(&self) -> (usize, Seq<u64>) {
        (self.runner, queued(self.tasks))
    }

    /// The queue is open and has the capacity of a local queue.
    pub open(crate) spec fn wf(&self) -> bool {
        &&& queue_capacity(self.tasks) == Some(LOCAL_QUEUE_CAPACITY)
        &&& !queue_closed(self.tasks)
    }
}

/// The runners and their tasks, queue by queue.
pub(crate) open(crate) spec fn local_tasks(queues: Seq<LocalQueue>) -> Seq<(usize, Seq<u64>)> {
    Seq::new(queues.len(), |i: int| queues[i]@)
}

/// The state of an executor, with wakers of type `W`.
pub struct State<W> {
    /// The global queue.
    pub(crate) queue: ConcurrentQueue<u64>,
    /// Local queues created by runners.
    pub(crate) local_queues: Vec<LocalQueue>,
    /// Set to `true` when a sleeping ticker is notified or no tickers are sleeping.
    pub(crate) notified: bool,
    /// A list of sleeping tickers.
    pub(crate) sleepers: Sleepers<W>,
    /// Currently active tasks.
    pub(crate) active: Active,
}

impl<W> State<W> {
    /// What the state holds.
    pub open(crate) spec fn view(&self) -> StateView<W> {
        StateView {
            queue: queued(self.queue),
            local_queues: local_tasks(self.local_queues@),
            notified: self.notified,
            sleepers: self.sleepers@,
            active: self.active@,
        }
    }

    /// The queues are open, the global one without a capacity, and what they hold is well
    /// formed.
    pub open(crate) spec fn wf(&self) -> bool {
        &&& queue_capacity(self.queue) == None::<usize>
        &&& !queue_closed(self.queue)
        &&& forall|i: int|
            0 <= i < self.local_queues@.len() ==> (#[trigger] self.local_queues@[i]).wf()
        &&& self@.wf()
    }

    /// Creates state for a new executor.
    pub fn new() -> (state: State<W>)
        ensures
            state@ == StateView::<W>::initial(),
            state.wf(),
    {
        State {
            queue: queue::unbounded(),
            local_queues: Vec::new(),
            notified: true,
            sleepers: Sleepers::new(),
            active: Active::new(),
        }
    }

    /// Returns `true` if there are no unfinished tasks.
    pub fn is_empty(&self) -> (empty: bool)
        ensures
            empty == (self@.active.tasks().len() == 0),
    {
        self.active.is_empty()
    }

    /// The number of sleeping tickers, notified or not.
    pub fn sleeping(&self) -> (count: usize)
        ensures
            count == self@.sleepers.count,
    {
        self.sleepers.count()
    }

    /// Notifies a sleeping ticker.
    ///
    /// Returns the waker of the ticker to wake. If a ticker was notified already or there are no
    /// tickers, `None` will be returned.
    pub fn notify(&mut self) -> (wake: Option<W>)
        requires
            old(self).wf(),
        ensures
            wake == old(self)@.notification(),
            final(self)@ == old(self)@.after_notify(),
            final(self).wf(),
    {
        proof {
            self@.lemma_notify();
        }
        if !self.notified {
            self.notified = true;
            self.sleepers.notify()
        } else {
            None
        }
    }

    /// Schedules a task that got woken up, and notifies a sleeping ticker.
    pub fn schedule(&mut self, task: u64) -> (wake: Option<W>)
        requires
            old(self).wf(),
        ensures
            wake == old(self)@.notification(),
            final(self)@ == old(self)@.scheduled(task),
            final(self).wf(),
    {
        let pushed = queue::push(&mut self.queue, task);
        assert(pushed);
        self.notify()
    }

    /// Registers a task in the set of active tasks and schedules it.
    pub fn spawn_inner(&mut self, task: u64) -> (spawned: Spawned<W>)
        requires
            old(self).wf(),
        ensures
            spawned.key == old(self)@.active.next_key(),
            spawned.wake == old(self)@.notification(),
            final(self)@ == old(self)@.spawned(task),
            final(self).wf(),
    {
        let key: usize = self.active.insert(task);
        let wake = self.schedule(task);
        Spawned { key, wake }
    }

    /// Removes a task from the set of active tasks when its future finishes.
    ///
    /// Returns the task, if it was active.
    pub fn finish(&mut self, key: usize) -> (task: Option<u64>)
        requires
            old(self).wf(),
        ensures
            task == old(self)@.active.get(key),
            final(self)@ == old(self)@.finished(key),
            final(self).wf(),
    {
        self.active.try_remove(key)
    }

    /// Attempts to take a task to be run if at least one is scheduled.
    ///
    /// Another ticker is notified to pick up where this one left off.
    pub fn try_tick(&mut self) -> (tick: Option<Tick<W>>)
        requires
            old(self).wf(),
        ensures
            tick is None <==> old(self)@.queue.len() == 0,
            tick matches Some(tick) ==> tick.task == old(self)@.queue[0] && tick.wake == old(
                self,
            )@.notification(),
            final(self)@ == old(self)@.ticked(),
            final(self).wf(),
    {
        match queue::pop(&mut self.queue) {
            None => None,
            Some(task) => {
                let wake = self.notify();
                Some(Tick { task, wake })
            },
        }
    }

    /// Takes out all active tasks, in the order of their keys.
    pub fn drain(&mut self) -> (tasks: Vec<u64>)
        requires
            old(self).wf(),
        ensures
            tasks@ == old(self)@.active.tasks(),
            final(self)@ == old(self)@.drained(),
            final(self).wf(),
    {
        self.active.drain()
    }

    /// Takes the oldest task out of the global queue, without notifying anyone.
    pub fn pop_queued(&mut self) -> (task: Option<u64>)
        requires
            old(self).wf(),
        ensures
            task is None <==> old(self)@.queue.len() == 0,
            task matches Some(oldest) ==> oldest == old(self)@.queue[0],
            final(self)@ == old(self)@.without_oldest(),
            final(self).wf(),
    {
        queue::pop(&mut self.queue)
    }
}

} // verus!
