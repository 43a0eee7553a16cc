//! The flag: every call leaves it right.

use crate::run::{Run, RunStep};
use crate::runner::Runner;
use crate::spawn::SpawnedMany;
use crate::state::{Spawned, State, StateView, Tick};
use crate::ticker::{Polled, Step, Ticker};
use fastrand::Rng;
use vstd::prelude::*;

verus! {

/// The flag is set exactly if no ticker is sleeping or one of them is missing from the list.
pub open spec fn flagged<W>(state: StateView<W>) -> bool {
    state.notified <==> state.sleepers.count == 0 || state.sleepers.wakers.len()
        < state.sleepers.count
}

/// Whatever is done with tasks leaves the flag right.
pub proof fn law_tasks_leave_flag_right<W>()
    ensures
        forall|state: State<W>| #[trigger]
            call_ensures(State::<W>::new, (), state) ==> flagged(state@),
        forall|state: &mut State<W>, wake: Option<W>| #[trigger]
            call_ensures(State::<W>::notify, (state,), wake) ==> flagged(final(state)@),
        forall|state: &mut State<W>, task: u64, wake: Option<W>| #[trigger]
            call_ensures(State::<W>::schedule, (state, task), wake) ==> flagged(final(state)@),
        forall|state: &mut State<W>, task: u64, spawned: Spawned<W>| #[trigger]
            call_ensures(State::<W>::spawn_inner, (state, task), spawned) ==> flagged(
                final(state)@,
            ),
        forall|
            state: &mut State<W>,
            tasks: &Vec<u64>,
            from: usize,
            to: usize,
            spawned: SpawnedMany<W>,
        | #[trigger]
            call_ensures(State::<W>::spawn_range, (state, tasks, from, to), spawned) ==> flagged(
                final(state)@,
            ),
        forall|state: &mut State<W>, key: usize, task: Option<u64>| #[trigger]
            call_ensures(State::<W>::finish, (state, key), task) ==> flagged(final(state)@),
        forall|state: &mut State<W>, tick: Option<Tick<W>>| #[trigger]
            call_ensures(State::<W>::try_tick, (state,), tick) ==> flagged(final(state)@),
{
}

/// Whatever tickers and runners do leaves the flag right.
pub proof fn law_tickers_leave_flag_right<W: Clone>()
    ensures
        forall|ticker: &mut Ticker, state: &mut State<W>, waker: &W, slept: bool| #[trigger]
            call_ensures(Ticker::sleep::<W>, (ticker, state, waker), slept) ==> flagged(
                final(state)@,
            ),
        forall|ticker: &mut Ticker, state: &mut State<W>| #[trigger]
            call_ensures(Ticker::wake::<W>, (ticker, state), ()) ==> flagged(final(state)@),
        forall|
            ticker: &mut Ticker,
            state: &mut State<W>,
            found: Option<u64>,
            waker: &W,
            step: Step<W>,
        | #[trigger]
            call_ensures(Ticker::runnable_with::<W>, (ticker, state, found, waker), step)
                ==> flagged(final(state)@),
        forall|ticker: &mut Ticker, state: &mut State<W>, waker: &W, polled: Polled<W>| #[trigger]
            call_ensures(Ticker::runnable::<W>, (ticker, state, waker), polled) ==> flagged(
                final(state)@,
            ),
        forall|ticker: Ticker, state: &mut State<W>, wake: Option<W>| #[trigger]
            call_ensures(Ticker::drop::<W>, (ticker, state), wake) ==> flagged(final(state)@),
        forall|
            runner: &mut Runner,
            state: &mut State<W>,
            rng: &mut Rng,
            waker: &W,
            polled: Polled<W>,
        | #[trigger]
            call_ensures(Runner::runnable::<W>, (runner, state, rng, waker), polled) ==> flagged(
                final(state)@,
            ),
        forall|runner: Runner, state: &mut State<W>, wakes: Vec<W>| #[trigger]
            call_ensures(Runner::drop::<W>, (runner, state), wakes) ==> flagged(final(state)@),
        forall|state: &mut State<W>, run: &mut Run, waker: &W, step: RunStep<W>| #[trigger]
            call_ensures(State::<W>::run, (state, run, waker), step) ==> flagged(final(state)@),
        forall|run: Run, state: &mut State<W>, wakes: Vec<W>| #[trigger]
            call_ensures(Run::drop::<W>, (run, state), wakes) ==> flagged(final(state)@),
{
}

} // verus!
