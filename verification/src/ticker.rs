//! Tickers: they wait for tasks one by one, and sleep while there are none.

use crate::queue;
use crate::state::{State, StateView, Tick};
use vstd::prelude::*;

verus! {

/// What a ticker does after it searched for a task.
pub enum Step<W> {
    /// The task to run.
    Ready(Tick<W>),
    /// The ticker has just fallen asleep: search once more.
    Again,
    /// The ticker sleeps until it is woken.
    Pending,
}

/// What came out of polling for a task.
pub enum Polled<W> {
    /// The task to run.
    Ready(Tick<W>),
    /// Nothing to run: the ticker sleeps until it is woken.
    Pending,
}

/// Whether a ticker that is awake if `sleeping` is zero, and asleep under that identifier
/// otherwise, belongs to a state.
pub open spec fn ticker_valid<W>(sleeping: usize, state: StateView<W>) -> bool {
    sleeping == 0 || state.sleepers.asleep(sleeping)
}

impl<W> StateView<W> {
    /// The identifier of a ticker after it fell asleep.
    pub open spec fn slept_id(self, sleeping: usize) -> usize {
        if sleeping == 0 {
            self.sleepers.next_id()
        } else {
            sleeping
        }
    }

    /// The state after a ticker fell asleep with `waker`.
    pub open spec fn slept(self, sleeping: usize, waker: W) -> Self {
        if sleeping == 0 {
            self.with_sleepers(self.sleepers.inserted(waker))
        } else {
            self.with_sleepers(self.sleepers.updated(sleeping, waker))
        }
    }

    /// The state after a ticker woke up.
    pub open spec fn woken(self, sleeping: usize) -> Self {
        if sleeping == 0 {
            self
        } else {
            self.with_sleepers(self.sleepers.removed(sleeping))
        }
    }

    /// Whether a ticker sleeps and has been notified.
    pub open spec fn ticker_notified(self, sleeping: usize) -> bool {
        sleeping != 0 && !self.sleepers.listed(sleeping)
    }

    /// The state after a ticker found a task, woke up and passed the notification on.
    pub open spec fn found(self, sleeping: usize) -> Self {
        self.woken(sleeping).after_notify()
    }

    /// The state after a ticker was dropped. A notified ticker passes the notification on.
    pub open spec fn ticker_dropped(self, sleeping: usize) -> Self {
        if self.ticker_notified(sleeping) {
            self.woken(sleeping).after_notify()
        } else {
            self.woken(sleeping)
        }
    }

    /// The waker handed out when a ticker is dropped.
    pub open spec fn ticker_dropped_wake(self, sleeping: usize) -> Option<W> {
        if self.ticker_notified(sleeping) {
            self.woken(sleeping).notification()
        } else {
            None
        }
    }

    /// Falling asleep twice in a row is falling asleep with the second waker.
    pub proof fn lemma_slept_twice(self, sleeping: usize, first: W, second: W)
        requires
            self.wf(),
            ticker_valid(sleeping, self),
            sleeping == 0 ==> self.sleepers.count < usize::MAX,
            self.slept(sleeping, first).wf(),
        ensures
            self.slept(sleeping, first).slept(self.slept_id(sleeping), second) == self.slept(
                sleeping,
                second,
            ),
    {
        let id = self.slept_id(sleeping);
        let once = self.slept(sleeping, first).sleepers;
        let twice = once.updated(id, second);
        if sleeping == 0 || !self.sleepers.listed(sleeping) {
            once.lemma_position(once.wakers.len() - 1);
        } else {
            let i = self.sleepers.position(sleeping);
            assert(self.sleepers.wakers[i].0 == sleeping);
            once.lemma_position(i);
        }
        assert(twice =~= self.slept(sleeping, second).sleepers);
        if sleeping == 0 {
            assert(id != 0) by {
                if self.sleepers.free_ids.len() > 0 {
                    assert(self.sleepers.free_ids[self.sleepers.free_ids.len() - 1] >= 1);
                }
            }
        }
    }
}

impl<W: Clone> StateView<W> {
    /// Whether a ticker that fell asleep with a clone of `waker` may sleep under `id` and leave
    /// the state as it is in `after`.
    pub open spec fn sleep_outcome(self, sleeping: usize, waker: W, id: usize, after: Self) -> bool {
        let stored = after.sleepers.waker_of(id);
        &&& id == self.slept_id(sleeping)
        &&& id != 0
        &&& cloned(waker, stored)
        &&& after == self.slept(sleeping, stored)
        &&& after.sleepers.listed(id)
    }

    /// Whether going on after a search that came back with `found` may give `step`, and leave the
    /// ticker as `ticker` says and the state as it is in `after`.
    pub open spec fn step_outcome(
        self,
        sleeping: usize,
        found: Option<u64>,
        waker: W,
        step: Step<W>,
        ticker: usize,
        after: Self,
    ) -> bool {
        match step {
            Step::Ready(tick) => {
                &&& found == Some(tick.task)
                &&& tick.wake == self.woken(sleeping).notification()
                &&& ticker == 0
                &&& after == self.found(sleeping)
            },
            Step::Again => {
                &&& found is None
                &&& sleeping == 0 || self.ticker_notified(sleeping)
                &&& self.sleep_outcome(sleeping, waker, ticker, after)
            },
            Step::Pending => {
                &&& found is None
                &&& sleeping != 0 && !self.ticker_notified(sleeping)
                &&& self.sleep_outcome(sleeping, waker, ticker, after)
            },
        }
    }

    /// Whether polling a ticker for the oldest task in the global queue may give `polled`, and
    /// leave the ticker as `ticker` says and the state as it is in `after`.
    pub open spec fn poll_outcome(
        self,
        sleeping: usize,
        waker: W,
        polled: Polled<W>,
        ticker: usize,
        after: Self,
    ) -> bool {
        match polled {
            Polled::Ready(tick) => {
                &&& self.queue.len() > 0
                &&& tick.task == self.queue[0]
                &&& tick.wake == self.woken(sleeping).notification()
                &&& ticker == 0
                &&& after == self.with_queue(self.queue.drop_first()).found(sleeping)
            },
            Polled::Pending => {
                &&& self.queue.len() == 0
                &&& self.sleep_outcome(sleeping, waker, ticker, after)
            },
        }
    }
}

/// Runs task one by one.
pub struct Ticker {
    /// Set to a non-zero sleeper ID when in sleeping state.
    ///
    /// States a ticker can be in:
    /// 1) Woken.
    /// 2a) Sleeping and unnotified.
    /// 2b) Sleeping and notified.
    pub(crate) sleeping: usize,
}

impl Ticker {
    /// The identifier under which the ticker sleeps, zero if it is awake.
    pub open(crate) spec fn view(&self) -> usize {
        self.sleeping
    }

    /// Creates a ticker.
    pub fn new() -> (ticker: Ticker)
        ensures
            ticker@ == 0,
    {
        Ticker { sleeping: 0 }
    }

    /// Moves the ticker into sleeping and unnotified state.
    ///
    /// Returns `false` if the ticker was already sleeping and unnotified.
    pub fn sleep<W: Clone>(&mut self, state: &mut State<W>, waker: &W) -> (slept: bool)
        requires
            old(state).wf(),
            ticker_valid(old(self)@, old(state)@),
            old(self)@ == 0 ==> old(state)@.sleepers.count < usize::MAX,
        ensures
            slept == (old(self)@ == 0 || old(state)@.ticker_notified(old(self)@)),
            old(state)@.sleep_outcome(old(self)@, *waker, final(self)@, final(state)@),
            ticker_valid(final(self)@, final(state)@),
            final(state).wf(),
    {
        if self.sleeping == 0 {
            // Move to sleeping state.
            self.sleeping = state.sleepers.insert(waker);
            proof {
                state.sleepers@.lemma_position(state.sleepers@.wakers.len() - 1);
            }
        } else {
            // Already sleeping, check if notified.
            if !state.sleepers.update(self.sleeping, waker) {
                return false;
            }
        }
        state.notified = state.sleepers.is_notified();
        true
    }

    /// Moves the ticker into woken state.
    pub fn wake<W>(&mut self, state: &mut State<W>)
        requires
            old(state).wf(),
            ticker_valid(old(self)@, old(state)@),
        ensures
            final(self)@ == 0,
            final(state)@ == old(state)@.woken(old(self)@),
            final(state).wf(),
    {
        if self.sleeping != 0 {
            state.sleepers.remove(self.sleeping);
            state.notified = state.sleepers.is_notified();
        }
        self.sleeping = 0;
    }

    /// Goes on after a search for a task to run, which came back with `found`.
    ///
    /// With a task the ticker wakes up and notifies another ticker. Without one it falls asleep
    /// and has to search again, unless it was asleep and unnotified already.
    pub fn runnable_with<W: Clone>(
        &mut self,
        state: &mut State<W>,
        found: Option<u64>,
        waker: &W,
    ) -> (step: Step<W>)
        requires
            old(state).wf(),
            ticker_valid(old(self)@, old(state)@),
            found is None && old(self)@ == 0 ==> old(state)@.sleepers.count < usize::MAX,
        ensures
            old(state)@.step_outcome(
                old(self)@,
                found,
                *waker,
                step,
                final(self)@,
                final(state)@,
            ),
            ticker_valid(final(self)@, final(state)@),
            final(state).wf(),
    {
        match found {
            None => {
                // Move to sleeping and unnotified state.
                if !self.sleep(state, waker) {
                    // If already sleeping and unnotified, return.
                    Step::Pending
                } else {
                    Step::Again
                }
            },
            Some(task) => {
                // Wake up.
                self.wake(state);

                // Notify another ticker now to pick up where this ticker left off, just in
                // case running the task takes a long time.
                let wake = state.notify();
                Step::Ready(Tick { task, wake })
            },
        }
    }

    /// Waits for the next runnable task to run.
    ///
    /// This is one poll: it takes the oldest task of the global queue. If there is none, the
    /// ticker sleeps until its `waker` is handed out.
    pub fn runnable<W: Clone>(&mut self, state: &mut State<W>, waker: &W) -> (polled: Polled<W>)
        requires
            old(state).wf(),
            ticker_valid(old(self)@, old(state)@),
            old(state)@.queue.len() == 0 && old(self)@ == 0 ==> old(state)@.sleepers.count
                < usize::MAX,
        ensures
            old(state)@.poll_outcome(old(self)@, *waker, polled, final(self)@, final(state)@),
            ticker_valid(final(self)@, final(state)@),
            final(state).wf(),
    {
        let ghost mut first = true;
        loop
            invariant
                old(state).wf(),
                ticker_valid(old(self)@, old(state)@),
                old(state)@.queue.len() == 0 && old(self)@ == 0 ==> old(state)@.sleepers.count
                    < usize::MAX,
                state.wf(),
                ticker_valid(self@, state@),
                first ==> self@ == old(self)@ && state@ == old(state)@,
                !first ==> {
                    &&& old(state)@.queue.len() == 0
                    &&& self@ == old(state)@.slept_id(old(self)@)
                    &&& self@ != 0
                    &&& state@ == old(state)@.slept(old(self)@, state@.sleepers.waker_of(self@))
                    &&& state@.sleepers.listed(self@)
                },
            decreases (if first {
                    1int
                } else {
                    0
                }),
        {
            let ghost before = state@;
            let ghost ticker = self@;
            let found = queue::pop(&mut state.queue);
            assert(state@.queue == queue::queued(state.queue));
            match self.runnable_with(state, found, waker) {
                Step::Ready(tick) => {
                    return Polled::Ready(tick);
                },
                Step::Again => {},
                Step::Pending => {
                    proof {
                        if !first {
                            old(state)@.lemma_slept_twice(
                                old(self)@,
                                before.sleepers.waker_of(ticker),
                                state@.sleepers.waker_of(self@),
                            );
                        }
                    }
                    return Polled::Pending;
                },
            }
            proof {
                first = false;
            }
        }
    }

    /// Drops the ticker.
    ///
    /// If it is in sleeping state, it is removed from the sleepers list. If it was notified,
    /// another ticker is notified.
    pub fn drop<W>(self, state: &mut State<W>) -> (wake: Option<W>)
        requires
            old(state).wf(),
            ticker_valid(self@, old(state)@),
        ensures
            wake == old(state)@.ticker_dropped_wake(self@),
            final(state)@ == old(state)@.ticker_dropped(self@),
            final(state).wf(),
    {
        if self.sleeping != 0 {
            let notified = state.sleepers.remove(self.sleeping);
            state.notified = state.sleepers.is_notified();

            // If this ticker was notified, then notify another ticker.
            if notified {
                return state.notify();
            }
        }
        None
    }
}

} // verus!
