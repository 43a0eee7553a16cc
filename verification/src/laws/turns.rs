//! Running an executor: the turns of a run, and what each step of it does.

use crate::executor::{started, Executor};
use crate::laws::calls::lemma_initial_wf;
use crate::laws::working::{lemma_polls_runner, polls_runner};
use crate::local::LocalExecutor;
use crate::run::{Run, RunStep, RunView};
use crate::runner::runner_valid;
use crate::state::{State, StateView};
use crate::ticker::Polled;
use vstd::prelude::*;

verus! {

/// How many tasks the steps of a run gave since it last let other futures have their turn.
pub open spec fn tasks_since_yield<W>(steps: Seq<RunStep<W>>) -> nat
    decreases steps.len(),
{
    if steps.len() == 0 {
        0
    } else {
        let before = tasks_since_yield(steps.drop_last());
        match steps.last() {
            RunStep::Run(_) => before + 1,
            RunStep::Yield => 0,
            RunStep::Pending => before,
        }
    }
}

/// In any sequence of steps of one run, on whatever executor and whatever its state is by then, a
/// step lets other futures have their turn exactly if a hundred tasks were given since the last
/// time. So there are never more than a hundred in a row.
pub proof fn law_turns<W: Clone>(runs: Seq<Run>, steps: Seq<RunStep<W>>, i: int)
    requires
        runs.len() == steps.len() + 1,
        exists|state: &mut State<W>| #[trigger] call_ensures(Run::new::<W>, (state,), runs[0]),
        forall|j: int|
            0 <= j < steps.len() ==> {
                ||| exists|state: &mut State<W>, run: &mut Run, waker: &W|
                    {
                        &&& *run == runs[j]
                        &&& *final(run) == runs[j + 1]
                        &&& #[trigger] call_ensures(
                            State::<W>::run,
                            (state, run, waker),
                            #[trigger] steps[j],
                        )
                    }
                ||| exists|executor: &mut Executor<W>, run: &mut Run, waker: &W|
                    {
                        &&& *run == runs[j]
                        &&& *final(run) == runs[j + 1]
                        &&& #[trigger] call_ensures(
                            Executor::<W>::run,
                            (executor, run, waker),
                            steps[j],
                        )
                    }
                ||| exists|executor: &mut LocalExecutor<W>, run: &mut Run, waker: &W|
                    {
                        &&& *run == runs[j]
                        &&& *final(run) == runs[j + 1]
                        &&& #[trigger] call_ensures(
                            LocalExecutor::<W>::run,
                            (executor, run, waker),
                            steps[j],
                        )
                    }
            },
        0 <= i < steps.len(),
    ensures
        steps[i] is Yield <==> tasks_since_yield(steps.take(i)) == 100,
        tasks_since_yield(steps.take(i)) <= 100,
{
    let served = Seq::new(runs.len(), |j: int| runs[j]@.served);
    assert forall|j: int| 0 <= j < steps.len() implies counts(
        served[j],
        #[trigger] steps[j],
        served[j + 1],
    ) by {}
    assert(served[0] == 0);
    lemma_turns(served, steps, i);
}

/// How a step changes the number of tasks that were given since the last time that other futures
/// had their turn.
spec fn counts<W>(before: nat, step: RunStep<W>, after: nat) -> bool {
    match step {
        RunStep::Run(_) => before < 100 && after == before + 1,
        RunStep::Yield => before == 100 && after == 0,
        RunStep::Pending => before < 100 && after == before,
    }
}

/// The number is that of the tasks that were given.
proof fn lemma_turns<W>(served: Seq<nat>, steps: Seq<RunStep<W>>, i: int)
    requires
        served.len() == steps.len() + 1,
        served[0] == 0,
        forall|j: int|
            0 <= j < steps.len() ==> counts(served[j], #[trigger] steps[j], served[j + 1]),
        0 <= i <= steps.len(),
    ensures
        served[i] == tasks_since_yield(steps.take(i)),
        served[i] <= 100,
    decreases i,
{
    if i > 0 {
        lemma_turns(served, steps, i - 1);
        assert(steps.take(i).drop_last() =~= steps.take(i - 1));
        assert(steps.take(i).last() == steps[i - 1]);
    }
}

/// What a step of a run does to the state: nothing if other futures have their turn, and what
/// polling its runner does otherwise.
pub open spec fn steps_on<W: Clone>(
    before: StateView<W>,
    run: RunView,
    own: int,
    waker: W,
    step: RunStep<W>,
    next: RunView,
    after: StateView<W>,
) -> bool {
    match step {
        RunStep::Run(tick) => polls_runner(
            before,
            run.runner,
            own,
            waker,
            Polled::Ready(tick),
            next.runner,
            after,
        ),
        RunStep::Yield => after == before && next.runner == run.runner,
        RunStep::Pending => polls_runner(
            before,
            run.runner,
            own,
            waker,
            Polled::Pending,
            next.runner,
            after,
        ),
    }
}

/// What the contract of a step gives.
proof fn lemma_steps_on<W: Clone>(
    state: StateView<W>,
    run: RunView,
    own: int,
    waker: W,
    step: RunStep<W>,
    next: RunView,
    after: StateView<W>,
)
    requires
        state.wf(),
        runner_valid(run.runner, state),
        state.idle() && run.runner.sleeping == 0 ==> state.sleepers.count < usize::MAX,
        0 <= own < state.local_queues.len(),
        state.local_queues[own].0 == run.runner.id,
        state.run_outcome(run, waker, step, next, after),
    ensures
        steps_on(state, run, own, waker, step, next, after),
{
    match step {
        RunStep::Run(tick) => {
            lemma_polls_runner(
                state,
                run.runner,
                own,
                waker,
                Polled::Ready(tick),
                next.runner,
                after,
            );
        },
        RunStep::Yield => {},
        RunStep::Pending => {
            lemma_polls_runner(
                state,
                run.runner,
                own,
                waker,
                Polled::Pending,
                next.runner,
                after,
            );
        },
    }
}

/// A step of a run polls its runner, unless other futures have their turn.
pub proof fn law_run<W: Clone>()
    ensures
        forall|state: &mut State<W>, run: &mut Run, waker: &W, step: RunStep<W>, own: int|
            {
                &&& state.wf()
                &&& runner_valid(run@.runner, state@)
                &&& state@.idle() && run@.runner.sleeping == 0 ==> state@.sleepers.count
                    < usize::MAX
                &&& 0 <= own < state@.local_queues.len()
                &&& (#[trigger] state@.local_queues[own]).0 == run@.runner.id
                &&& #[trigger] call_ensures(State::<W>::run, (state, run, waker), step)
            } ==> steps_on(state@, run@, own, *waker, step, final(run)@, final(state)@),
        forall|executor: &mut Executor<W>, run: &mut Run, waker: &W, step: RunStep<W>, own: int|
            {
                let state = started(executor@);
                &&& executor.wf()
                &&& runner_valid(run@.runner, state)
                &&& state.idle() && run@.runner.sleeping == 0 ==> state.sleepers.count < usize::MAX
                &&& 0 <= own < state.local_queues.len()
                &&& (#[trigger] started(executor@).local_queues[own]).0 == run@.runner.id
                &&& #[trigger] call_ensures(Executor::<W>::run, (executor, run, waker), step)
            } ==> steps_on(
                started(executor@),
                run@,
                own,
                *waker,
                step,
                final(run)@,
                started(final(executor)@),
            ),
        forall|
            executor: &mut LocalExecutor<W>,
            run: &mut Run,
            waker: &W,
            step: RunStep<W>,
            own: int,
        |
            {
                let state = started(executor@);
                &&& executor.wf()
                &&& runner_valid(run@.runner, state)
                &&& state.idle() && run@.runner.sleeping == 0 ==> state.sleepers.count < usize::MAX
                &&& 0 <= own < state.local_queues.len()
                &&& (#[trigger] started(executor@).local_queues[own]).0 == run@.runner.id
                &&& #[trigger] call_ensures(LocalExecutor::<W>::run, (executor, run, waker), step)
            } ==> steps_on(
                started(executor@),
                run@,
                own,
                *waker,
                step,
                final(run)@,
                started(final(executor)@),
            ),
{
    lemma_initial_wf::<W>();
    assert forall|
        state: StateView<W>,
        run: RunView,
        own: int,
        waker: W,
        step: RunStep<W>,
        next: RunView,
        after: StateView<W>,
    |
        {
            &&& state.wf()
            &&& runner_valid(run.runner, state)
            &&& state.idle() && run.runner.sleeping == 0 ==> state.sleepers.count < usize::MAX
            &&& 0 <= own < state.local_queues.len()
            &&& (#[trigger] state.local_queues[own]).0 == run.runner.id
            &&& #[trigger] state.run_outcome(run, waker, step, next, after)
        } implies steps_on(state, run, own, waker, step, next, after) by {
        lemma_steps_on(state, run, own, waker, step, next, after);
    }
}

} // verus!
