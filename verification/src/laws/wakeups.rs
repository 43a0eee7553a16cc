//! Wakeups: no task is left waiting while every ticker sleeps.

use crate::run::{RunStep, RunView};
use crate::runner::{runner_valid, RunnerView};
use crate::state::StateView;
use crate::ticker::{ticker_valid, Polled};
use vstd::prelude::*;

verus! {

/// As long as there are tasks in the global queue, a sleeping ticker is notified or none is
/// sleeping.
pub open spec fn attended<W>(state: StateView<W>) -> bool {
    state.queue.len() > 0 ==> state.notified
}

/// As long as there are tasks in any queue, a sleeping ticker is notified or none is sleeping.
pub open spec fn all_attended<W>(state: StateView<W>) -> bool {
    !state.idle() ==> state.notified
}

/// Tasks that wait in any queue include those that wait in the global one.
pub proof fn law_all_attended<W>(state: StateView<W>)
    requires
        all_attended(state),
    ensures
        attended(state),
{
}

/// A new executor is attended.
pub proof fn law_initial_attended<W>()
    ensures
        all_attended(StateView::<W>::initial()),
{
}

/// When a task is scheduled and no sleeping ticker is notified, one is: its waker is handed out.
/// Every queue is attended from then on.
pub proof fn law_schedule_attended<W>(state: StateView<W>, task: u64)
    requires
        state.wf(),
    ensures
        all_attended(state.scheduled(task)),
        all_attended(state.spawned(task)),
        state.notification() is Some <==> !state.notified,
{
    state.lemma_notify();
}

/// Spawning many tasks at once keeps the executor attended.
pub proof fn law_spawn_many_attended<W>(state: StateView<W>, tasks: Seq<u64>)
    ensures
        all_attended(state) || tasks.len() > 0 ==> all_attended(state.spawned_many(tasks)),
        attended(state) ==> attended(state.spawned_many(tasks)),
{
}

/// Taking a task to be run passes the notification on, so that the remaining ones are attended.
pub proof fn law_try_tick_attended<W>(state: StateView<W>)
    ensures
        all_attended(state) || state.queue.len() > 0 ==> all_attended(state.ticked()),
        attended(state.ticked()),
{
}

/// That a task finishes or the executor is dropped keeps what waits attended.
pub proof fn law_finish_attended<W>(state: StateView<W>, key: usize)
    ensures
        attended(state) ==> attended(state.finished(key)),
        all_attended(state) ==> all_attended(state.finished(key)),
        attended(state) ==> attended(state.drained()),
        all_attended(state) ==> all_attended(state.drained()),
        attended(state) ==> attended(state.without_oldest()),
        all_attended(state) ==> all_attended(state.without_oldest()),
{
}

/// Polling a ticker leaves the global queue attended, whatever came of it.
pub proof fn law_poll_attended<W: Clone>(
    state: StateView<W>,
    sleeping: usize,
    waker: W,
    polled: Polled<W>,
    ticker: usize,
    after: StateView<W>,
)
    requires
        state.wf(),
        ticker_valid(sleeping, state),
        state.poll_outcome(sleeping, waker, polled, ticker, after),
    ensures
        attended(after),
        polled is Ready ==> all_attended(after),
{
}

/// A ticker that waits is woken when a task is scheduled: if no other ticker sleeps, it is its own
/// waker that is handed out, a clone of the one it was last polled with.
pub proof fn law_waits_until_scheduled<W: Clone>(
    state: StateView<W>,
    sleeping: usize,
    waker: W,
    ticker: usize,
    after: StateView<W>,
)
    requires
        state.wf(),
        ticker_valid(sleeping, state),
        state.sleep_outcome(sleeping, waker, ticker, after),
        state.sleepers.count == if sleeping == 0 {
            0nat
        } else {
            1nat
        },
    ensures
        after.notification() matches Some(handed_out) && cloned(waker, handed_out),
        after.notification() == Some(after.sleepers.waker_of(ticker)),
{
    state.sleepers.lemma_listed_at_most_count();
    if sleeping != 0 && state.sleepers.listed(sleeping) {
        let i = state.sleepers.position(sleeping);
        assert(state.sleepers.wakers[i].0 == sleeping);
    }
    assert(after.sleepers.wakers.len() == 1);
    let i = after.sleepers.position(ticker);
    assert(after.sleepers.wakers[i].0 == ticker);
}

/// Polling a runner leaves all queues attended, whatever came of it.
pub proof fn law_runner_attended<W: Clone>(
    state: StateView<W>,
    runner: RunnerView,
    waker: W,
    polled: Polled<W>,
    next: RunnerView,
    after: StateView<W>,
)
    requires
        state.wf(),
        runner_valid(runner, state),
        state.runner_outcome(runner, waker, polled, next, after),
    ensures
        all_attended(after),
{
}

/// A step of a running executor keeps all queues attended.
pub proof fn law_run_attended<W: Clone>(
    state: StateView<W>,
    run: RunView,
    waker: W,
    step: RunStep<W>,
    next: RunView,
    after: StateView<W>,
)
    requires
        state.wf(),
        runner_valid(run.runner, state),
        state.run_outcome(run, waker, step, next, after),
    ensures
        all_attended(state) || !(step is Yield) ==> all_attended(after),
        attended(state) || !(step is Yield) ==> attended(after),
{
}

/// A ticker that is dropped keeps what waits attended. If it was notified, the notification is
/// passed on: another ticker is notified then, or none is sleeping.
pub proof fn law_ticker_drop_attended<W>(state: StateView<W>, sleeping: usize)
    requires
        state.wf(),
        ticker_valid(sleeping, state),
    ensures
        attended(state) ==> attended(state.ticker_dropped(sleeping)),
        all_attended(state) ==> all_attended(state.ticker_dropped(sleeping)),
        state.ticker_notified(sleeping) ==> state.ticker_dropped(sleeping).notified,
        state.ticker_notified(sleeping) ==> (state.ticker_dropped_wake(sleeping) is Some
            <==> state.sleepers.count > 1),
{
    state.sleepers.lemma_listed_at_most_count();
}

/// Registering a runner keeps what waits attended.
pub proof fn law_register_attended<W>(state: StateView<W>, id: usize)
    ensures
        attended(state) ==> attended(state.with_runner(id)),
        all_attended(state) ==> all_attended(state.with_runner(id)),
{
    let more = state.with_runner(id);
    if !more.idle() && more.queue.len() == 0 {
        let i = choose|i: int|
            0 <= i < more.local_queues.len() && (#[trigger] more.local_queues[i]).1.len() > 0;
        assert(state.local_queues[i] == more.local_queues[i]);
    }
}

/// Dropping a runner keeps what waits attended.
pub proof fn law_runner_drop_attended<W>(state: StateView<W>, runner: RunnerView)
    requires
        state.wf(),
        runner_valid(runner, state),
    ensures
        attended(state) ==> attended(state.runner_dropped(runner)),
        all_attended(state) ==> all_attended(state.runner_dropped(runner)),
{
    let own = state.runner_position(runner.id);
    let rest = state.without_runner(own);
    assert(0 <= own < state.local_queues.len());
    assert(rest.wf());
    rest.lemma_notify();
    let unregistered = state.unregistered(runner);
    assert(unregistered.wf());
    assert(ticker_valid(runner.sleeping, unregistered));
    law_ticker_drop_attended(unregistered, runner.sleeping);
    if all_attended(state) && !rest.idle() {
        let tasks = state.local_queues[own].1;
        if rest.queue.len() == 0 {
            let i = choose|i: int|
                0 <= i < rest.local_queues.len() && (#[trigger] rest.local_queues[i]).1.len() > 0;
            let j = if i < own {
                i
            } else {
                i + 1
            };
            assert(state.local_queues[j] == rest.local_queues[i]);
        }
        assert(all_attended(unregistered));
    }
}

} // verus!
