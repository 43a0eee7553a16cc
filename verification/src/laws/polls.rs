//! What every call of tickers and runners does, said of what the state holds before and after it.

use crate::executor::{started, Executor};
use crate::laws::calls::{
    lemma_found, lemma_initial_wf, lemma_notified, lemma_others_absent, lemma_removed, lemma_woken,
};
use crate::laws::effects::{
    awakes, drops_ticker, falls_asleep, given, hands_out, notifies, others, same_tasks,
    takes_oldest,
};
use crate::local::LocalExecutor;
use crate::sleepers::{Sleepers, SleepersView};
use crate::state::{State, StateView};
use crate::ticker::{ticker_valid, Polled, Step, Ticker};
use vstd::prelude::*;

verus! {

/// Another waker for a ticker that is listed leaves the others alone.
proof fn lemma_others_update<W>(wakers: Seq<(usize, W)>, at: int, waker: W)
    requires
        0 <= at < wakers.len(),
    ensures
        others(wakers.update(at, (wakers[at].0, waker)), wakers[at].0) == others(
            wakers,
            wakers[at].0,
        ),
    decreases wakers.len(),
{
    let updated = wakers.update(at, (wakers[at].0, waker));
    if at == wakers.len() - 1 {
        assert(updated.drop_last() =~= wakers.drop_last());
    } else {
        lemma_others_update(wakers.drop_last(), at, waker);
        assert(updated.drop_last() =~= wakers.drop_last().update(at, (wakers[at].0, waker)));
    }
}

/// A ticker that is inserted falls asleep.
proof fn lemma_inserted<W: Clone>(sleepers: SleepersView<W>, waker: W, stored: W)
    requires
        sleepers.wf(),
        sleepers.count < usize::MAX,
        cloned(waker, stored),
    ensures
        falls_asleep(sleepers, 0, waker, sleepers.next_id(), sleepers.inserted(stored)),
{
    let id = sleepers.next_id();
    let after = sleepers.inserted(stored);
    sleepers.lemma_inserted(stored);
    assert forall|i: int| 0 <= i < sleepers.wakers.len() implies (#[trigger] sleepers.wakers[i]).0
        != id by {
        assert(sleepers.asleep(sleepers.wakers[i].0));
    }
    lemma_others_absent(sleepers.wakers, id);
    assert(after.wakers.drop_last() =~= sleepers.wakers);
    assert(others(after.wakers, id) == sleepers.wakers);
    assert forall|i: int|
        0 <= i < after.wakers.len() && (#[trigger] after.wakers[i]).0 == id implies cloned(
        waker,
        after.wakers[i].1,
    ) by {
        if i < sleepers.wakers.len() {
            assert(after.wakers[i] == sleepers.wakers[i]);
        }
    }
    assert forall|other: usize| #[trigger] after.asleep(other) <==> sleepers.asleep(other) || other
        == id by {}
}

/// A ticker that is listed again falls asleep again.
proof fn lemma_updated<W: Clone>(sleepers: SleepersView<W>, id: usize, waker: W, stored: W)
    requires
        sleepers.wf(),
        sleepers.asleep(id),
        id != 0,
        cloned(waker, stored),
    ensures
        falls_asleep(sleepers, id, waker, id, sleepers.updated(id, stored)),
{
    let after = sleepers.updated(id, stored);
    sleepers.lemma_updated(id, stored);
    if sleepers.listed(id) {
        let at = sleepers.position(id);
        assert(sleepers.wakers[at].0 == id);
        lemma_others_update(sleepers.wakers, at, stored);
        assert forall|i: int|
            0 <= i < after.wakers.len() && (#[trigger] after.wakers[i]).0 == id implies cloned(
            waker,
            after.wakers[i].1,
        ) by {
            if i != at {
                assert(after.wakers[i] == sleepers.wakers[i]);
            }
        }
    } else {
        assert(after.wakers.drop_last() =~= sleepers.wakers);
        assert forall|i: int|
            0 <= i < after.wakers.len() && (#[trigger] after.wakers[i]).0 == id implies cloned(
            waker,
            after.wakers[i].1,
        ) by {
            if i < sleepers.wakers.len() {
                assert(after.wakers[i] == sleepers.wakers[i]);
            }
        }
    }
}

/// A ticker that moves into sleeping state falls asleep and does nothing else.
pub(crate) proof fn lemma_sleep<W: Clone>(
    state: StateView<W>,
    sleeping: usize,
    waker: W,
    id: usize,
    after: StateView<W>,
)
    requires
        state.wf(),
        ticker_valid(sleeping, state),
        sleeping == 0 ==> state.sleepers.count < usize::MAX,
        state.sleep_outcome(sleeping, waker, id, after),
    ensures
        falls_asleep(state.sleepers, sleeping, waker, id, after.sleepers),
        same_tasks(state, after),
{
    let stored = after.sleepers.waker_of(id);
    if sleeping == 0 {
        lemma_inserted(state.sleepers, waker, stored);
    } else {
        lemma_updated(state.sleepers, sleeping, waker, stored);
    }
}

/// The list of sleeping tickers: inserting a ticker and listing it again makes it sleep with the
/// waker, removing it makes it sleep no more, and a notification hands out the waker of the first
/// one in the list, unless a ticker is notified already.
pub proof fn law_sleepers<W: Clone>()
    ensures
        forall|sleepers: &mut Sleepers<W>, waker: &W, id: usize|
            sleepers@.wf() && sleepers@.count < usize::MAX && #[trigger] call_ensures(
                Sleepers::<W>::insert,
                (sleepers, waker),
                id,
            ) ==> falls_asleep(sleepers@, 0, *waker, id, final(sleepers)@),
        forall|sleepers: &mut Sleepers<W>, id: usize, waker: &W, notified: bool|
            sleepers@.wf() && sleepers@.asleep(id) && #[trigger] call_ensures(
                Sleepers::<W>::update,
                (sleepers, id, waker),
                notified,
            ) ==> {
                &&& falls_asleep(sleepers@, id, *waker, id, final(sleepers)@)
                &&& notified <==> forall|i: int|
                    0 <= i < sleepers@.wakers.len() ==> (#[trigger] sleepers@.wakers[i]).0 != id
            },
        forall|sleepers: &mut Sleepers<W>, id: usize, notified: bool|
            sleepers@.wf() && sleepers@.asleep(id) && #[trigger] call_ensures(
                Sleepers::<W>::remove,
                (sleepers, id),
                notified,
            ) ==> {
                &&& awakes(sleepers@, id, final(sleepers)@)
                &&& hands_out(sleepers@, id, Seq::empty(), final(sleepers)@)
                &&& notified <==> forall|i: int|
                    0 <= i < sleepers@.wakers.len() ==> (#[trigger] sleepers@.wakers[i]).0 != id
            },
        forall|sleepers: &mut Sleepers<W>, wake: Option<W>|
            sleepers@.wf() && #[trigger] call_ensures(Sleepers::<W>::notify, (sleepers,), wake)
                ==> {
                &&& awakes(sleepers@, 0, final(sleepers)@)
                &&& notifies(sleepers@, 0, given(wake), final(sleepers)@)
            },
        forall|sleepers: &Sleepers<W>, notified: bool| #[trigger]
            call_ensures(Sleepers::<W>::is_notified, (sleepers,), notified) ==> (notified <==> (
            sleepers@.count == 0 || sleepers@.wakers.len() < sleepers@.count)),
{
    assert forall|sleepers: SleepersView<W>, waker: W, stored: W|
        sleepers.wf() && sleepers.count < usize::MAX && #[trigger] cloned(
            waker,
            stored,
        ) implies falls_asleep(
        sleepers,
        0,
        waker,
        sleepers.next_id(),
        #[trigger] sleepers.inserted(stored),
    ) by {
        lemma_inserted(sleepers, waker, stored);
    }
    assert forall|sleepers: SleepersView<W>, id: usize, waker: W, stored: W|
        sleepers.wf() && sleepers.asleep(id) && #[trigger] cloned(
            waker,
            stored,
        ) implies falls_asleep(
        sleepers,
        id,
        waker,
        id,
        #[trigger] sleepers.updated(id, stored),
    ) by {
        lemma_updated(sleepers, id, waker, stored);
    }
    assert forall|sleepers: SleepersView<W>, id: usize|
        sleepers.wf() && sleepers.asleep(id) implies awakes(
        sleepers,
        id,
        #[trigger] sleepers.removed(id),
    ) && hands_out(sleepers, id, Seq::empty(), sleepers.removed(id)) by {
        lemma_removed(sleepers, id);
    }
    assert forall|sleepers: SleepersView<W>| sleepers.wf() implies awakes(
        sleepers,
        0,
        #[trigger] sleepers.after_notify(),
    ) && notifies(sleepers, 0, given(sleepers.notification()), sleepers.after_notify()) by {
        let state = StateView { sleepers, ..StateView::<W>::initial() };
        let state = state.with_sleepers(sleepers);
        sleepers.lemma_listed_at_most_count();
        lemma_notified(state);
    }
}

/// Going on after a search. With a task the ticker is awake, and another one is notified. Without
/// one it sleeps, and waits only if it slept and was listed already.
pub open spec fn goes_on<W: Clone>(
    before: StateView<W>,
    me: usize,
    found: Option<u64>,
    waker: W,
    step: Step<W>,
    ticker: usize,
    after: StateView<W>,
) -> bool {
    let listed = exists|i: int|
        0 <= i < before.sleepers.wakers.len() && (#[trigger] before.sleepers.wakers[i]).0 == me;
    &&& same_tasks(before, after)
    &&& match found {
        Some(task) => {
            &&& step matches Step::Ready(tick) && tick.task == task && notifies(
                before.sleepers,
                me,
                given(tick.wake),
                after.sleepers,
            )
            &&& ticker == 0
            &&& awakes(before.sleepers, me, after.sleepers)
        },
        None => {
            &&& if me != 0 && listed {
                step is Pending
            } else {
                step is Again
            }
            &&& falls_asleep(before.sleepers, me, waker, ticker, after.sleepers)
        },
    }
}

/// Polling a ticker gives the oldest task in the global queue, and notifies another ticker. If
/// there is no task, the ticker sleeps.
pub open spec fn polls<W: Clone>(
    before: StateView<W>,
    me: usize,
    waker: W,
    polled: Polled<W>,
    ticker: usize,
    after: StateView<W>,
) -> bool {
    match polled {
        Polled::Ready(tick) => {
            &&& takes_oldest(before, me, tick.task, tick.wake, after)
            &&& ticker == 0
        },
        Polled::Pending => {
            &&& before.queue.len() == 0
            &&& same_tasks(before, after)
            &&& falls_asleep(before.sleepers, me, waker, ticker, after.sleepers)
        },
    }
}

/// What the contract of a poll gives.
proof fn lemma_polls<W: Clone>(
    state: StateView<W>,
    me: usize,
    waker: W,
    polled: Polled<W>,
    ticker: usize,
    after: StateView<W>,
)
    requires
        state.wf(),
        ticker_valid(me, state),
        state.queue.len() == 0 && me == 0 ==> state.sleepers.count < usize::MAX,
        state.poll_outcome(me, waker, polled, ticker, after),
    ensures
        polls(state, me, waker, polled, ticker, after),
{
    match polled {
        Polled::Ready(tick) => {
            let popped = state.with_queue(state.queue.drop_first());
            lemma_found(popped, me);
            assert(popped.woken(me).notification() == state.woken(me).notification());
            assert(state.queue =~= seq![tick.task] + after.queue);
        },
        Polled::Pending => {
            lemma_sleep(state, me, waker, ticker, after);
        },
    }
}

/// Falling asleep and waking up affects nobody else, and is told apart from having slept already.
pub proof fn law_sleep_and_wake<W: Clone>()
    ensures
        forall|ticker: &mut Ticker, state: &mut State<W>, waker: &W, slept: bool|
            state.wf() && ticker_valid(ticker@, state@) && (ticker@ == 0
                ==> state@.sleepers.count < usize::MAX) && #[trigger] call_ensures(
                Ticker::sleep::<W>,
                (ticker, state, waker),
                slept,
            ) ==> {
                &&& same_tasks(state@, final(state)@)
                &&& falls_asleep(
                    state@.sleepers,
                    ticker@,
                    *waker,
                    final(ticker)@,
                    final(state)@.sleepers,
                )
                &&& !slept <==> ticker@ != 0 && exists|i: int|
                    0 <= i < state@.sleepers.wakers.len() && (
                    #[trigger] state@.sleepers.wakers[i]).0 == ticker@
            },
        forall|ticker: &mut Ticker, state: &mut State<W>|
            state.wf() && ticker_valid(ticker@, state@) && #[trigger] call_ensures(
                Ticker::wake::<W>,
                (ticker, state),
                (),
            ) ==> {
                &&& final(ticker)@ == 0
                &&& same_tasks(state@, final(state)@)
                &&& awakes(state@.sleepers, ticker@, final(state)@.sleepers)
                &&& hands_out(
                    state@.sleepers,
                    ticker@,
                    Seq::empty(),
                    final(state)@.sleepers,
                )
            },
{
    assert forall|ticker: &mut Ticker, state: &mut State<W>, waker: &W, slept: bool|
        state.wf() && ticker_valid(ticker@, state@) && (ticker@ == 0
            ==> state@.sleepers.count < usize::MAX) && #[trigger] call_ensures(
            Ticker::sleep::<W>,
            (ticker, state, waker),
            slept,
        ) implies {
        &&& same_tasks(state@, final(state)@)
        &&& falls_asleep(
            state@.sleepers,
            ticker@,
            *waker,
            final(ticker)@,
            final(state)@.sleepers,
        )
        &&& !slept <==> ticker@ != 0 && exists|i: int|
            0 <= i < state@.sleepers.wakers.len() && (#[trigger] state@.sleepers.wakers[i]).0
                == ticker@
    } by {
        lemma_sleep(state@, ticker@, *waker, final(ticker)@, final(state)@);
    }
    assert forall|state: StateView<W>, me: usize|
        state.wf() && ticker_valid(me, state) implies {
        &&& same_tasks(state, #[trigger] state.woken(me))
        &&& awakes(state.sleepers, me, state.woken(me).sleepers)
        &&& hands_out(state.sleepers, me, Seq::empty(), state.woken(me).sleepers)
    } by {
        lemma_woken(state, me);
    }
}

/// A ticker that found a task is awake and notifies another one, for which the waker is handed
/// out. One that found none sleeps, and waits only if it slept and was listed before it searched.
pub proof fn law_runnable_with<W: Clone>()
    ensures
        forall|
            ticker: &mut Ticker,
            state: &mut State<W>,
            found: Option<u64>,
            waker: &W,
            step: Step<W>,
        |
            state.wf() && ticker_valid(ticker@, state@) && (found is None && ticker@ == 0
                ==> state@.sleepers.count < usize::MAX) && #[trigger] call_ensures(
                Ticker::runnable_with::<W>,
                (ticker, state, found, waker),
                step,
            ) ==> goes_on(
                state@,
                ticker@,
                found,
                *waker,
                step,
                final(ticker)@,
                final(state)@,
            ),
{
    assert forall|
        ticker: &mut Ticker,
        state: &mut State<W>,
        found: Option<u64>,
        waker: &W,
        step: Step<W>,
    |
        state.wf() && ticker_valid(ticker@, state@) && (found is None && ticker@ == 0
            ==> state@.sleepers.count < usize::MAX) && #[trigger] call_ensures(
            Ticker::runnable_with::<W>,
            (ticker, state, found, waker),
            step,
        ) implies goes_on(
        state@,
        ticker@,
        found,
        *waker,
        step,
        final(ticker)@,
        final(state)@,
    ) by {
        lemma_found(state@, ticker@);
        if found is None {
            lemma_sleep(state@, ticker@, *waker, final(ticker)@, final(state)@);
        }
    }
}

/// Polling a ticker gives the oldest task in the global queue, and the waker that comes with it is
/// that of the ticker that was notified. If there is no task, the ticker sleeps with its waker.
pub proof fn law_tick<W: Clone>()
    ensures
        forall|ticker: &mut Ticker, state: &mut State<W>, waker: &W, polled: Polled<W>|
            state.wf() && ticker_valid(ticker@, state@) && (state@.queue.len() == 0 && ticker@ == 0
                ==> state@.sleepers.count < usize::MAX) && #[trigger] call_ensures(
                Ticker::runnable::<W>,
                (ticker, state, waker),
                polled,
            ) ==> polls(state@, ticker@, *waker, polled, final(ticker)@, final(state)@),
        forall|
            executor: &mut Executor<W>,
            ticker: &mut Ticker,
            waker: &W,
            polled: Polled<W>,
        |
            executor.wf() && ticker_valid(ticker@, started(executor@)) && (started(
                executor@,
            ).queue.len() == 0 && ticker@ == 0 ==> started(executor@).sleepers.count < usize::MAX)
                && #[trigger] call_ensures(
                Executor::<W>::tick,
                (executor, ticker, waker),
                polled,
            ) ==> polls(
                started(executor@),
                ticker@,
                *waker,
                polled,
                final(ticker)@,
                started(final(executor)@),
            ),
        forall|
            executor: &mut LocalExecutor<W>,
            ticker: &mut Ticker,
            waker: &W,
            polled: Polled<W>,
        |
            executor.wf() && ticker_valid(ticker@, started(executor@)) && (started(
                executor@,
            ).queue.len() == 0 && ticker@ == 0 ==> started(executor@).sleepers.count < usize::MAX)
                && #[trigger] call_ensures(
                LocalExecutor::<W>::tick,
                (executor, ticker, waker),
                polled,
            ) ==> polls(
                started(executor@),
                ticker@,
                *waker,
                polled,
                final(ticker)@,
                started(final(executor)@),
            ),
{
    lemma_initial_wf::<W>();
    assert forall|
        state: StateView<W>,
        me: usize,
        waker: W,
        polled: Polled<W>,
        ticker: usize,
        after: StateView<W>,
    |
        state.wf() && ticker_valid(me, state) && (state.queue.len() == 0 && me == 0
            ==> state.sleepers.count < usize::MAX) && #[trigger] state.poll_outcome(
            me,
            waker,
            polled,
            ticker,
            after,
        ) implies polls(state, me, waker, polled, ticker, after) by {
        lemma_polls(state, me, waker, polled, ticker, after);
    }
}

/// A ticker that is dropped sleeps no more. If it was notified, another one is notified in its
/// place and its waker is handed out.
pub proof fn law_drop_ticker<W>()
    ensures
        forall|ticker: Ticker, state: &mut State<W>, wake: Option<W>|
            state.wf() && ticker_valid(ticker@, state@) && #[trigger] call_ensures(
                Ticker::drop::<W>,
                (ticker, state),
                wake,
            ) ==> drops_ticker(state@, ticker@, wake, final(state)@),
{
    assert forall|state: StateView<W>, me: usize|
        state.wf() && ticker_valid(me, state) implies drops_ticker(
        state,
        me,
        state.ticker_dropped_wake(me),
        #[trigger] state.ticker_dropped(me),
    ) by {
        lemma_drops_ticker(state, me);
    }
}

/// What the contract of dropping a ticker gives.
pub(crate) proof fn lemma_drops_ticker<W>(state: StateView<W>, me: usize)
    requires
        state.wf(),
        ticker_valid(me, state),
    ensures
        drops_ticker(state, me, state.ticker_dropped_wake(me), state.ticker_dropped(me)),
{
    lemma_woken(state, me);
    lemma_found(state, me);
}

} // verus!
