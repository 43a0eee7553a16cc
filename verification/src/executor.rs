//! The executor.

use crate::run::{Run, RunStep};
use crate::runner::runner_valid;
use crate::spawn::{batch_end, lemma_batch_end, yield_after, SpawnedMany};
use crate::state::{Spawned, State, StateView, Tick};
use crate::ticker::{ticker_valid, Polled, Ticker};
use vstd::prelude::*;

verus! {

/// The state of an executor, which is that of a new one as long as it was not used.
pub open spec fn started<W>(executor: Option<StateView<W>>) -> StateView<W> {
    match executor {
        Some(state) => state,
        None => StateView::initial(),
    }
}

/// An async executor, with wakers of type `W`.
///
/// Its state is made when it is first used.
pub struct Executor<W> {
    pub(crate) state: Option<State<W>>,
}

impl<W> View for Executor<W> {
    type V = Option<StateView<W>>;

    open(crate) spec fn view(&self) -> Option<StateView<W>> {
        match self.state {
            Some(state) => Some(state@),
            None => None,
        }
    }
}

impl<W> Executor<W> {
    /// The state, if there is one, is well formed.
    pub open(crate) spec fn wf(&self) -> bool {
        self.state matches Some(state) ==> state.wf()
    }

    /// Creates a new executor.
    pub fn new() -> (executor: Executor<W>)
        ensures
            executor@ is None,
            executor.wf(),
    {
        Executor { state: None }
    }

    /// Returns the state, which is made on the first call.
    pub fn state(&mut self) -> (state: &mut State<W>)
        requires
            old(self).wf(),
        ensures
            state.wf(),
            state@ == started(old(self)@),
            final(self)@ == Some(final(state)@),
            final(state).wf() ==> final(self).wf(),
    {
        if self.state.is_none() {
            self.state = Some(State::new());
        }
        self.state.as_mut().unwrap()
    }

    /// Returns `true` if there are no unfinished tasks.
    pub fn is_empty(&mut self) -> (empty: bool)
        requires
            old(self).wf(),
        ensures
            empty == (started(old(self)@).active.tasks().len() == 0),
            final(self)@ == Some(started(old(self)@)),
            final(self).wf(),
    {
        self.state().is_empty()
    }

    /// Spawns a task onto the executor.
    ///
    /// Returns the key under which the task is active until it is finished, and the waker of the
    /// ticker to wake.
    pub fn spawn(&mut self, task: u64) -> (spawned: Spawned<W>)
        requires
            old(self).wf(),
        ensures
            spawned.key == started(old(self)@).active.next_key(),
            spawned.wake == started(old(self)@).notification(),
            final(self)@ == Some(started(old(self)@).spawned(task)),
            final(self).wf(),
    {
        self.state().spawn_inner(task)
    }

    /// Spawns many tasks onto the executor: one batch of them, which begins at position `from`.
    ///
    /// As opposed to the [`spawn`] method, this spawns all of the tasks of a batch in one go.
    /// For very large numbers of tasks there are several batches, and other threads get at the
    /// executor between them. The next one begins behind the tasks whose keys are returned.
    ///
    /// [`spawn`]: Executor::spawn
    pub fn spawn_many(&mut self, tasks: &Vec<u64>, from: usize) -> (spawned: SpawnedMany<W>)
        requires
            old(self).wf(),
            from <= tasks.len(),
        ensures
            ({
                let end = batch_end(from as int, tasks@.len() as int);
                let batch = tasks@.subrange(from as int, end);
                &&& spawned.keys@.map_values(|key: usize| key as int) == started(
                    old(self)@,
                ).active.next_keys(batch)
                &&& spawned.wake == started(old(self)@).spawned_many_wake(batch)
                &&& final(self)@ == Some(started(old(self)@).spawned_many(batch))
            }),
            final(self).wf(),
    {
        let ghost end = batch_end(from as int, tasks@.len() as int);
        let mut to: usize = from;
        let mut last = false;
        proof {
            lemma_batch_end(from as int, tasks@.len() as int);
        }
        while to < tasks.len() && !last
            invariant
                from <= to <= tasks@.len(),
                !last ==> batch_end(to as int, tasks@.len() as int) == end,
                last ==> to == end,
            decreases tasks@.len() - to,
        {
            last = yield_after(to);
            to = to + 1;
        }
        self.state().spawn_range(tasks, from, to)
    }

    /// Schedules a task when it gets woken up.
    ///
    /// Returns the waker of the ticker to wake.
    pub fn schedule(&mut self, task: u64) -> (wake: Option<W>)
        requires
            old(self).wf(),
        ensures
            wake == started(old(self)@).notification(),
            final(self)@ == Some(started(old(self)@).scheduled(task)),
            final(self).wf(),
    {
        self.state().schedule(task)
    }

    /// Removes a task from the set of active tasks when its future finishes.
    ///
    /// Returns the task, if it was active.
    pub fn finish(&mut self, key: usize) -> (task: Option<u64>)
        requires
            old(self).wf(),
        ensures
            task == started(old(self)@).active.get(key),
            final(self)@ == Some(started(old(self)@).finished(key)),
            final(self).wf(),
    {
        self.state().finish(key)
    }

    /// Attempts to run a task if at least one is scheduled.
    ///
    /// Returns the task to run: running it means simply polling its future once.
    pub fn try_tick(&mut self) -> (tick: Option<Tick<W>>)
        requires
            old(self).wf(),
        ensures
            tick is None <==> started(old(self)@).queue.len() == 0,
            tick matches Some(tick) ==> tick.task == started(old(self)@).queue[0] && tick.wake
                == started(old(self)@).notification(),
            final(self)@ == Some(started(old(self)@).ticked()),
            final(self).wf(),
    {
        self.state().try_tick()
    }

    /// Drops the executor: the tasks that are active are no longer, and are returned in the order
    /// of their keys, in order to be woken one last time.
    ///
    /// The queue is emptied after that, see [`drop_queued`](Executor::drop_queued).
    pub fn drop(&mut self) -> (tasks: Vec<u64>)
        requires
            old(self).wf(),
        ensures
            tasks@ == started(old(self)@).active.tasks(),
            final(self)@ == match old(self)@ {
                Some(state) => Some(state.drained()),
                None => None,
            },
            final(self).wf(),
    {
        match &mut self.state {
            None => Vec::new(),
            Some(state) => state.drain(),
        }
    }

    /// Takes the oldest task out of the global queue of a dropped executor, in order to be
    /// dropped.
    pub fn drop_queued(&mut self) -> (task: Option<u64>)
        requires
            old(self).wf(),
        ensures
            task is None <==> started(old(self)@).queue.len() == 0,
            task matches Some(oldest) ==> oldest == started(old(self)@).queue[0],
            final(self)@ == match old(self)@ {
                Some(state) => Some(state.without_oldest()),
                None => None,
            },
            final(self).wf(),
    {
        match &mut self.state {
            None => None,
            Some(state) => state.pop_queued(),
        }
    }
}

impl<W: Clone> Executor<W> {
    /// Runs a single task.
    ///
    /// This is one poll, which returns the task to run: running it means simply polling its
    /// future once. If no tasks are scheduled, the ticker sleeps until one is scheduled, and has
    /// to be polled again when its `waker` is handed out.
    pub fn tick(&mut self, ticker: &mut Ticker, waker: &W) -> (polled: Polled<W>)
        requires
            old(self).wf(),
            ticker_valid(old(ticker)@, started(old(self)@)),
            started(old(self)@).queue.len() == 0 && old(ticker)@ == 0 ==> started(
                old(self)@,
            ).sleepers.count < usize::MAX,
        ensures
            final(self)@ is Some,
            started(old(self)@).poll_outcome(
                old(ticker)@,
                *waker,
                polled,
                final(ticker)@,
                started(final(self)@),
            ),
            ticker_valid(final(ticker)@, started(final(self)@)),
            final(self).wf(),
    {
        ticker.runnable(self.state(), waker)
    }

    /// Runs the executor until a future completes, step by step.
    ///
    /// A step gives the next task to run, and lets other futures have their turn after
    /// [`RUN_BATCH`](crate::run::RUN_BATCH) tasks. If there is no task, the runner sleeps until one is scheduled, and
    /// the next step is due when its `waker` is handed out.
    pub fn run(&mut self, run: &mut Run, waker: &W) -> (step: RunStep<W>)
        requires
            old(self).wf(),
            old(run)@.wf(),
            runner_valid(old(run)@.runner, started(old(self)@)),
            started(old(self)@).idle() && old(run)@.runner.sleeping == 0 ==> started(
                old(self)@,
            ).sleepers.count < usize::MAX,
        ensures
            final(self)@ is Some,
            started(old(self)@).run_outcome(
                old(run)@,
                *waker,
                step,
                final(run)@,
                started(final(self)@),
            ),
            final(run)@.wf(),
            runner_valid(final(run)@.runner, started(final(self)@)),
            final(self).wf(),
    {
        self.state().run(run, waker)
    }
}

impl<W> Default for Executor<W> {
    fn default() -> (executor: Executor<W>)
        ensures
            executor@ is None,
            executor.wf(),
    {
        Executor::new()
    }
}

} // verus!
