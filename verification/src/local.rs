//! The thread-local executor.

use crate::executor::{started, Executor};
use crate::run::{Run, RunStep};
use crate::runner::runner_valid;
use crate::spawn::SpawnedMany;
use crate::state::{Spawned, StateView, Tick};
use crate::ticker::{ticker_valid, Polled, Ticker};
use vstd::prelude::*;

verus! {

/// A thread-local executor, with wakers of type `W`.
///
/// The executor can only be run on the thread that created it.
pub struct LocalExecutor<W> {
    /// The inner executor.
    inner: Executor<W>,
}

impl<W> View for LocalExecutor<W> {
    type V = Option<StateView<W>>;

    closed spec fn view(&self) -> Option<StateView<W>> {
        self.inner@
    }
}

impl<W> LocalExecutor<W> {
    /// The inner executor is well formed.
    pub closed spec fn wf(&self) -> bool {
        self.inner.wf()
    }

    /// A well-formed executor has a well-formed state.
    pub(crate) proof fn lemma_wf(&self)
        requires
            self.wf(),
        ensures
            started(self@).wf(),
    {
    }

    /// Creates a single-threaded executor.
    pub fn new() -> (executor: LocalExecutor<W>)
        ensures
            executor@ is None,
            executor.wf(),
    {
        LocalExecutor { inner: Executor::new() }
    }

    /// Returns `true` if there are no unfinished tasks.
    pub fn is_empty(&mut self) -> (empty: bool)
        requires
            old(self).wf(),
        ensures
            empty == (started(old(self)@).active.tasks().len() == 0),
            final(self)@ == Some(started(old(self)@)),
            final(self).wf(),
    {
        self.inner().is_empty()
    }

    /// Spawns a task onto the executor.
    ///
    /// Returns the key under which the task is active until it is finished, and the waker of the
    /// ticker to wake.
    pub fn spawn(&mut self, task: u64) -> (spawned: Spawned<W>)
        requires
            old(self).wf(),
        ensures
            spawned.key == started(old(self)@).active.next_key(),
            spawned.wake == started(old(self)@).notification(),
            final(self)@ == Some(started(old(self)@).spawned(task)),
            final(self).wf(),
    {
        self.inner().state().spawn_inner(task)
    }

    /// Spawns many tasks onto the executor.
    ///
    /// As opposed to [`Executor::spawn_many`], this spawns all of the tasks in one go, however
    /// many there are: there are no other threads that wait for the executor.
    pub fn spawn_many(&mut self, tasks: &Vec<u64>) -> (spawned: SpawnedMany<W>)
        requires
            old(self).wf(),
        ensures
            spawned.keys@.map_values(|key: usize| key as int) == started(
                old(self)@,
            ).active.next_keys(tasks@),
            spawned.wake == started(old(self)@).spawned_many_wake(tasks@),
            final(self)@ == Some(started(old(self)@).spawned_many(tasks@)),
            final(self).wf(),
    {
        assert(tasks@.subrange(0, tasks@.len() as int) =~= tasks@);
        self.inner().state().spawn_range(tasks, 0, tasks.len())
    }

    /// Attempts to run a task if at least one is scheduled.
    ///
    /// Returns the task to run: running it means simply polling its future once.
    pub fn try_tick(&mut self) -> (tick: Option<Tick<W>>)
        requires
            old(self).wf(),
        ensures
            tick is None <==> started(old(self)@).queue.len() == 0,
            tick matches Some(tick) ==> tick.task == started(old(self)@).queue[0] && tick.wake
                == started(old(self)@).notification(),
            final(self)@ == Some(started(old(self)@).ticked()),
            final(self).wf(),
    {
        self.inner().try_tick()
    }

    /// Returns the inner executor.
    pub fn inner(&mut self) -> (inner: &mut Executor<W>)
        requires
            old(self).wf(),
        ensures
            inner.wf(),
            inner@ == old(self)@,
            final(self)@ == final(inner)@,
            final(inner).wf() ==> final(self).wf(),
    {
        &mut self.inner
    }
}

impl<W: Clone> LocalExecutor<W> {
    /// Runs a single task.
    ///
    /// This is one poll, which returns the task to run: running it means simply polling its
    /// future once. If no tasks are scheduled, the ticker sleeps until one is scheduled, and has
    /// to be polled again when its `waker` is handed out.
    pub fn tick(&mut self, ticker: &mut Ticker, waker: &W) -> (polled: Polled<W>)
        requires
            old(self).wf(),
            ticker_valid(old(ticker)@, started(old(self)@)),
            started(old(self)@).queue.len() == 0 && old(ticker)@ == 0 ==> started(
                old(self)@,
            ).sleepers.count < usize::MAX,
        ensures
            final(self)@ is Some,
            started(old(self)@).poll_outcome(
                old(ticker)@,
                *waker,
                polled,
                final(ticker)@,
                started(final(self)@),
            ),
            ticker_valid(final(ticker)@, started(final(self)@)),
            final(self).wf(),
    {
        self.inner().tick(ticker, waker)
    }

    /// Runs the executor until a future completes, step by step.
    ///
    /// The steps are those of [`Executor::run`].
    pub fn run(&mut self, run: &mut Run, waker: &W) -> (step: RunStep<W>)
        requires
            old(self).wf(),
            old(run)@.wf(),
            runner_valid(old(run)@.runner, started(old(self)@)),
            started(old(self)@).idle() && old(run)@.runner.sleeping == 0 ==> started(
                old(self)@,
            ).sleepers.count < usize::MAX,
        ensures
            final(self)@ is Some,
            started(old(self)@).run_outcome(
                old(run)@,
                *waker,
                step,
                final(run)@,
                started(final(self)@),
            ),
            final(run)@.wf(),
            runner_valid(final(run)@.runner, started(final(self)@)),
            final(self).wf(),
    {
        self.inner().run(run, waker)
    }
}

impl<W> Default for LocalExecutor<W> {
    fn default() -> (executor: LocalExecutor<W>)
        ensures
            executor@ is None,
            executor.wf(),
    {
        LocalExecutor::new()
    }
}

} // verus!
