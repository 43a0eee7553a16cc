//! Tickers and runners stay valid: whatever others do, they can go on.

use crate::laws::sleeping::law_others_stay_asleep;
use crate::laws::stealing::law_drop_leaves_others;
use crate::runner::{runner_valid, RunnerView};
use crate::state::StateView;
use crate::ticker::{ticker_valid, Polled};
use vstd::prelude::*;

verus! {

/// A state whose local queues belong to the same runners, in their order, has the same runners.
proof fn lemma_same_runners<W>(state: StateView<W>, after: StateView<W>)
    requires
        after.local_queues.len() == state.local_queues.len(),
        forall|i: int|
            0 <= i < after.local_queues.len() ==> (#[trigger] after.local_queues[i]).0
                == state.local_queues[i].0,
    ensures
        forall|id: usize| #[trigger] after.has_runner(id) <==> state.has_runner(id),
{
    assert forall|id: usize| #[trigger] after.has_runner(id) <==> state.has_runner(id) by {
        if after.has_runner(id) {
            let i = after.runner_position(id);
            assert(after.local_queues[i].0 == id);
            assert(state.local_queues[i].0 == id);
        }
        if state.has_runner(id) {
            let i = state.runner_position(id);
            assert(state.local_queues[i].0 == id);
            assert(after.local_queues[i].0 == id);
        }
    }
}

/// Nothing that happens to tasks makes a runner invalid, nor its ticker.
pub proof fn law_tasks_keep_valid<W>(
    state: StateView<W>,
    runner: RunnerView,
    task: u64,
    tasks: Seq<u64>,
    key: usize,
)
    requires
        runner_valid(runner, state),
    ensures
        runner_valid(runner, state.scheduled(task)),
        runner_valid(runner, state.spawned(task)),
        runner_valid(runner, state.spawned_many(tasks)),
        runner_valid(runner, state.finished(key)),
        runner_valid(runner, state.ticked()),
        runner_valid(runner, state.drained()),
        runner_valid(runner, state.without_oldest()),
{
    lemma_same_runners(state, state.scheduled(task));
    lemma_same_runners(state, state.spawned(task));
    lemma_same_runners(state, state.spawned_many(tasks));
    lemma_same_runners(state, state.finished(key));
    lemma_same_runners(state, state.ticked());
    lemma_same_runners(state, state.drained());
    lemma_same_runners(state, state.without_oldest());
}

/// Nothing that happens to tasks makes a ticker invalid.
pub proof fn law_tasks_keep_ticker_valid<W>(
    state: StateView<W>,
    sleeping: usize,
    task: u64,
    tasks: Seq<u64>,
    key: usize,
)
    requires
        ticker_valid(sleeping, state),
    ensures
        ticker_valid(sleeping, state.scheduled(task)),
        ticker_valid(sleeping, state.spawned(task)),
        ticker_valid(sleeping, state.spawned_many(tasks)),
        ticker_valid(sleeping, state.finished(key)),
        ticker_valid(sleeping, state.ticked()),
        ticker_valid(sleeping, state.drained()),
        ticker_valid(sleeping, state.without_oldest()),
{
}

/// Polling a ticker leaves the other sleeping tickers asleep and all runners registered, and it
/// does not get the identifier of any of the tickers.
pub proof fn law_poll_keeps_valid<W: Clone>(
    state: StateView<W>,
    sleeping: usize,
    waker: W,
    polled: Polled<W>,
    ticker: usize,
    after: StateView<W>,
)
    requires
        state.wf(),
        ticker_valid(sleeping, state),
        polled is Pending && sleeping == 0 ==> state.sleepers.count < usize::MAX,
        state.poll_outcome(sleeping, waker, polled, ticker, after),
    ensures
        forall|other: usize|
            #![trigger after.sleepers.asleep(other)]
            #![trigger state.sleepers.asleep(other)]
            state.sleepers.asleep(other) && other != sleeping ==> after.sleepers.asleep(other)
                && other != ticker,
        forall|id: usize| #[trigger] after.has_runner(id) <==> state.has_runner(id),
{
    assert forall|other: usize|
        state.sleepers.asleep(other) && other != sleeping implies after.sleepers.asleep(other)
        && other != ticker by {
        law_others_stay_asleep(state, sleeping, after.sleepers.waker_of(ticker), other);
    }
    lemma_same_runners(state, after);
}

/// Polling a runner leaves the other sleeping tickers asleep and all runners registered, and it
/// does not get the identifier of any of the tickers.
pub proof fn law_runner_keeps_valid<W: Clone>(
    state: StateView<W>,
    runner: RunnerView,
    waker: W,
    polled: Polled<W>,
    next: RunnerView,
    after: StateView<W>,
)
    requires
        state.wf(),
        runner_valid(runner, state),
        polled is Pending && runner.sleeping == 0 ==> state.sleepers.count < usize::MAX,
        state.runner_outcome(runner, waker, polled, next, after),
    ensures
        forall|other: usize|
            #![trigger after.sleepers.asleep(other)]
            #![trigger state.sleepers.asleep(other)]
            state.sleepers.asleep(other) && other != runner.sleeping ==> after.sleepers.asleep(
                other,
            ) && other != next.sleeping,
        forall|id: usize| #[trigger] after.has_runner(id) <==> state.has_runner(id),
{
    if let Polled::Ready(tick) = polled {
        let own = state.runner_position(runner.id);
        assert(0 <= own < state.local_queues.len());
        let start = choose|start: int|
            {
                &&& 0 <= start < state.local_queues.len()
                &&& state.search_result(own, start) == Some(tick.task)
                &&& after == #[trigger] state.served(runner, start)
            };
        state.lemma_search(own, start);
        assert(after.sleepers == state.found(runner.sleeping).sleepers);
    }
    assert forall|other: usize|
        state.sleepers.asleep(other) && other != runner.sleeping implies after.sleepers.asleep(
        other,
    ) && other != next.sleeping by {
        law_others_stay_asleep(
            state,
            runner.sleeping,
            after.sleepers.waker_of(next.sleeping),
            other,
        );
    }
    lemma_same_runners(state, after);
}

/// Dropping a ticker leaves the other sleeping tickers asleep and all runners registered.
pub proof fn law_ticker_drop_keeps_valid<W>(state: StateView<W>, sleeping: usize)
    requires
        state.wf(),
        ticker_valid(sleeping, state),
    ensures
        forall|other: usize|
            state.sleepers.asleep(other) && other != sleeping ==> #[trigger] state.ticker_dropped(
                sleeping,
            ).sleepers.asleep(other),
        forall|id: usize| #[trigger]
            state.ticker_dropped(sleeping).has_runner(id) <==> state.has_runner(id),
{
    assert forall|other: usize|
        state.sleepers.asleep(other) && other != sleeping implies #[trigger] state.ticker_dropped(
        sleeping,
    ).sleepers.asleep(other) by {
        law_others_stay_asleep(state, sleeping, arbitrary(), other);
    }
    lemma_same_runners(state, state.ticker_dropped(sleeping));
}

/// Dropping a runner leaves the other sleeping tickers asleep, and all runners registered but the
/// one that is dropped.
pub proof fn law_runner_drop_keeps_valid<W>(state: StateView<W>, runner: RunnerView)
    requires
        state.wf(),
        runner_valid(runner, state),
    ensures
        forall|other: usize|
            state.sleepers.asleep(other) && other != runner.sleeping
                ==> #[trigger] state.runner_dropped(runner).sleepers.asleep(other),
        forall|id: usize| #[trigger]
            state.runner_dropped(runner).has_runner(id) <==> state.has_runner(id) && id
                != runner.id,
{
    let own = state.runner_position(runner.id);
    assert(0 <= own < state.local_queues.len());
    let rest = state.without_runner(own);
    assert(rest.wf());
    rest.lemma_notify();
    let unregistered = state.unregistered(runner);
    assert(ticker_valid(runner.sleeping, unregistered));
    assert forall|other: usize|
        state.sleepers.asleep(other) && other
            != runner.sleeping implies #[trigger] state.runner_dropped(runner).sleepers.asleep(
        other,
    ) by {
        assert(unregistered.sleepers.asleep(other));
        law_others_stay_asleep(unregistered, runner.sleeping, arbitrary(), other);
    }
    law_drop_leaves_others(state, runner);
    let after = state.runner_dropped(runner);
    assert forall|id: usize| #[trigger] after.has_runner(id) implies state.has_runner(id) by {
        let k = after.runner_position(id);
        let m = if k < own {
            k
        } else {
            k + 1
        };
        assert(after.local_queues[k] == state.local_queues[m]);
    }
}

/// Registering a runner leaves every ticker and every other runner valid, and the new one is
/// registered.
pub proof fn law_register_keeps_valid<W>(state: StateView<W>, id: usize)
    ensures
        forall|sleeping: usize|
            ticker_valid(sleeping, state) ==> #[trigger] ticker_valid(
                sleeping,
                state.with_runner(id),
            ),
        forall|runner: RunnerView|
            runner_valid(runner, state) ==> #[trigger] runner_valid(
                runner,
                state.with_runner(id),
            ),
        forall|other: usize| #[trigger]
            state.with_runner(id).has_runner(other) <==> state.has_runner(other) || other == id,
{
    let after = state.with_runner(id);
    assert forall|other: usize| #[trigger]
        after.has_runner(other) <==> state.has_runner(other) || other == id by {
        if after.has_runner(other) {
            let i = after.runner_position(other);
            assert(after.local_queues[i].0 == other);
            if i < state.local_queues.len() {
                assert(state.local_queues[i].0 == other);
            }
        }
        if state.has_runner(other) {
            let i = state.runner_position(other);
            assert(state.local_queues[i].0 == other);
            assert(after.local_queues[i].0 == other);
        }
        assert(after.local_queues[state.local_queues.len() as int].0 == id);
    }
    assert forall|runner: RunnerView|
        runner_valid(runner, state) implies #[trigger] runner_valid(runner, after) by {
        assert(after.has_runner(runner.id));
    }
}

} // verus!
