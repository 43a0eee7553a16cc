//! Running an executor until a future completes.

use crate::random;
use crate::runner::{runner_valid, Runner, RunnerView};
use crate::state::{State, StateView, Tick};
use crate::ticker::Polled;
use fastrand::Rng;
use vstd::prelude::*;

verus! {

/// How many tasks are run before other futures on the same thread get their turn.
pub const RUN_BATCH: usize = 100;

/// What to do next in order to run an executor.
pub enum RunStep<W> {
    /// The task to run.
    Run(Tick<W>),
    /// Give other futures their turn before going on.
    Yield,
    /// Wait until woken.
    Pending,
}

/// What a running executor holds.
pub struct RunView {
    /// The runner.
    pub runner: RunnerView,
    /// How many tasks it was given since the last time it gave other futures their turn.
    pub served: nat,
}

impl RunView {
    /// A turn is never longer than it may be.
    pub open spec fn wf(self) -> bool {
        self.served <= RUN_BATCH
    }
}

impl<W: Clone> StateView<W> {
    /// Whether a step of a running executor may be `step`, and leave the run as it is in `next`
    /// and the state as it is in `after`.
    pub open spec fn run_outcome(
        self,
        run: RunView,
        waker: W,
        step: RunStep<W>,
        next: RunView,
        after: Self,
    ) -> bool {
        match step {
            RunStep::Run(tick) => {
                &&& run.served < RUN_BATCH
                &&& next.served == run.served + 1
                &&& self.runner_outcome(
                    run.runner,
                    waker,
                    Polled::Ready(tick),
                    next.runner,
                    after,
                )
            },
            RunStep::Yield => {
                &&& run.served == RUN_BATCH
                &&& next == (RunView { served: 0, ..run })
                &&& after == self
            },
            RunStep::Pending => {
                &&& run.served < RUN_BATCH
                &&& next.served == run.served
                &&& self.runner_outcome(run.runner, waker, Polled::Pending, next.runner, after)
            },
        }
    }
}

/// A running executor.
pub struct Run {
    runner: Runner,
    rng: Rng,
    served: usize,
}

impl View for Run {
    type V = RunView;

    closed spec fn view(&self) -> RunView {
        RunView { runner: self.runner@, served: self.served as nat }
    }
}

impl Run {
    /// Starts running with a new runner.
    pub fn new<W>(state: &mut State<W>) -> (run: Run)
        requires
            old(state).wf(),
        ensures
            run@.wf(),
            run@.served == 0,
            run@.runner.sleeping == 0,
            run@.runner.ticks == 0,
            !old(state)@.has_runner(run@.runner.id),
            forall|id: usize| id < run@.runner.id ==> old(state)@.has_runner(id),
            final(state)@ == old(state)@.with_runner(run@.runner.id),
            runner_valid(run@.runner, final(state)@),
            final(state).wf(),
    {
        let runner = Runner::new(state);
        let rng = random::rng();
        Run { runner, rng, served: 0 }
    }

    /// Stops running, and drops the runner.
    ///
    /// Returns the wakers of the tickers to wake.
    pub fn drop<W>(self, state: &mut State<W>) -> (wakes: Vec<W>)
        requires
            old(state).wf(),
            runner_valid(self@.runner, old(state)@),
        ensures
            wakes@ == old(state)@.runner_dropped_wakes(self@.runner),
            final(state)@ == old(state)@.runner_dropped(self@.runner),
            final(state).wf(),
    {
        self.runner.drop(state)
    }
}

impl<W: Clone> State<W> {
    /// Runs tasks forever, step by step.
    ///
    /// A step gives the next task to run, until [`RUN_BATCH`] of them were run. Then other
    /// futures get their turn.
    pub fn run(&mut self, run: &mut Run, waker: &W) -> (step: RunStep<W>)
        requires
            old(self).wf(),
            old(run)@.wf(),
            runner_valid(old(run)@.runner, old(self)@),
            old(self)@.idle() && old(run)@.runner.sleeping == 0 ==> old(self)@.sleepers.count
                < usize::MAX,
        ensures
            old(self)@.run_outcome(old(run)@, *waker, step, final(run)@, final(self)@),
            final(run)@.wf(),
            runner_valid(final(run)@.runner, final(self)@),
            final(self).wf(),
    {
        if run.served == RUN_BATCH {
            run.served = 0;
            return RunStep::Yield;
        }
        match run.runner.runnable(self, &mut run.rng, waker) {
            Polled::Ready(tick) => {
                run.served = run.served + 1;
                RunStep::Run(tick)
            },
            Polled::Pending => RunStep::Pending,
        }
    }
}

} // verus!
