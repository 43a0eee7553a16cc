//! What every call of runners and of running executors does, said of what the state holds before
//! and after it.

use crate::laws::calls::{lemma_found, lemma_others_absent, lemma_others_bound, lemma_woken};
use crate::laws::effects::{
    awakes, falls_asleep, finds, given, hands_out, local_capacity, notifies, others, refills, robs,
    same_queues_but, same_tasks, serves, steals,
};
use crate::laws::history::{lemma_acted_wf, Action};
use crate::laws::polls::{lemma_drops_ticker, lemma_sleep};
use crate::queue::{queue_capacity, queue_closed, queued, steal, steal_count};
use crate::run::Run;
use crate::runner::{lemma_victim, rotated, runner_valid, victim, Runner, RunnerView};
use crate::state::{State, StateView};
use crate::ticker::{ticker_valid, Polled};
use concurrent_queue::ConcurrentQueue;
use fastrand::Rng;
use vstd::prelude::*;

verus! {

/// As many tasks are stolen as make a fair share.
proof fn lemma_steals(from: Seq<u64>, to: Seq<u64>, capacity: Option<usize>)
    requires
        capacity matches Some(cap) ==> to.len() <= cap,
    ensures
        ({
            let count = steal_count(from.len(), to.len(), capacity) as int;
            &&& count <= from.len()
            &&& steals(from, to, capacity, from.skip(count), to + from.take(count))
        }),
{
    let count = steal_count(from.len(), to.len(), capacity) as int;
    assert((to + from.take(count)) + from.skip(count) =~= to + from);
}

/// Stealing moves tasks from the front of a queue to the back of another one, in their order: half
/// of them rounded up, unless there is room for fewer.
pub proof fn law_steal_moves_half()
    ensures
        forall|src: &mut ConcurrentQueue<u64>, dest: &mut ConcurrentQueue<u64>|
            {
                &&& !queue_closed(*dest)
                &&& queue_capacity(*dest) matches Some(cap) ==> queued(*dest).len() <= cap
                &&& #[trigger] call_ensures(steal, (src, dest), ())
            } ==> {
                &&& steals(
                    queued(*src),
                    queued(*dest),
                    queue_capacity(*dest),
                    queued(*final(src)),
                    queued(*final(dest)),
                )
                &&& queue_capacity(*final(src)) == queue_capacity(*src)
                &&& queue_capacity(*final(dest)) == queue_capacity(*dest)
                &&& queue_closed(*final(src)) == queue_closed(*src)
                &&& !queue_closed(*final(dest))
            },
{
    assert forall|src: &mut ConcurrentQueue<u64>, dest: &mut ConcurrentQueue<u64>|
        {
            &&& !queue_closed(*dest)
            &&& queue_capacity(*dest) matches Some(cap) ==> queued(*dest).len() <= cap
            &&& #[trigger] call_ensures(steal, (src, dest), ())
        } implies steals(
        queued(*src),
        queued(*dest),
        queue_capacity(*dest),
        queued(*final(src)),
        queued(*final(dest)),
    ) by {
        lemma_steals(queued(*src), queued(*dest), queue_capacity(*dest));
    }
}

/// The place that is `k` steps behind `start` on a circle of `n` places.
pub open spec fn on_circle(start: int, k: int, n: int) -> int {
    (start + k) % n
}

/// Whether the queue at a place has nothing to be robbed of.
pub open spec fn spared(queues: Seq<(usize, Seq<u64>)>, own: int, i: int) -> bool {
    i == own || queues[i].1.len() == 0
}

/// The queue that is robbed is the first one on the circle that has something.
proof fn lemma_first_victim(queues: Seq<(usize, Seq<u64>)>, own: int, start: int, k: int) -> (at:
    int)
    requires
        0 <= start < queues.len(),
        0 <= k < queues.len(),
        victim(queues, own, start, k) is Some,
    ensures
        k <= at < queues.len(),
        victim(queues, own, start, k) == Some(on_circle(start, at, queues.len() as int)),
        !spared(queues, own, on_circle(start, at, queues.len() as int)),
        forall|j: int|
            k <= j < at ==> spared(
                queues,
                own,
                #[trigger] on_circle(start, j, queues.len() as int),
            ),
    decreases queues.len() - k,
{
    let n = queues.len() as int;
    lemma_circle(start, k, n);
    let i = rotated(start, k, n);
    if i != own && queues[i].1.len() > 0 {
        k
    } else {
        let at = lemma_first_victim(queues, own, start, k + 1);
        assert forall|j: int| k <= j < at implies spared(
            queues,
            own,
            #[trigger] on_circle(start, j, n),
        ) by {
            if j != k {
                assert(k + 1 <= j < at);
            }
        }
        at
    }
}

/// A step on the circle.
proof fn lemma_circle(start: int, k: int, n: int)
    requires
        0 <= start < n,
        0 <= k < n,
    ensures
        on_circle(start, k, n) == rotated(start, k, n),
        0 <= on_circle(start, k, n) < n,
{
    if start + k < n {
        assert((start + k) % n == start + k) by (nonlinear_arith)
            requires
                0 <= start + k < n,
        ;
    } else {
        assert((start + k) % n == start + k - n) by (nonlinear_arith)
            requires
                n <= start + k < 2 * n,
        ;
    }
}

/// A robbed queue loses half of its tasks, and the robber has them.
proof fn lemma_robs<W>(state: StateView<W>, own: int, from: int)
    requires
        state.wf(),
        0 <= own < state.local_queues.len(),
        0 <= from < state.local_queues.len(),
        from != own,
        state.local_queues[from].1.len() > 0,
    ensures
        ({
            let after = state.robbed(own, from);
            let tasks = state.local_queues[from].1;
            &&& robs(tasks, tasks[0], after.local_queues[from].1, after.local_queues[own].1)
            &&& same_queues_but(state, after, own, from)
            &&& after == (StateView { local_queues: after.local_queues, ..state })
        }),
{
    let after = state.robbed(own, from);
    let tasks = state.local_queues[from].1;
    assert(tasks =~= seq![tasks[0]] + after.local_queues[own].1 + after.local_queues[from].1);
}

/// A runner with an empty queue robs the first of the other runners that has tasks, going round
/// from `start`: it gets the oldest of its tasks, and half of them rounded up leave the queue.
/// Only if no other runner has tasks it gets nothing, and nothing changes.
pub open spec fn robs_someone<W>(
    before: StateView<W>,
    own: int,
    start: int,
    task: Option<u64>,
    after: StateView<W>,
) -> bool {
    let n = before.local_queues.len() as int;
    match task {
        Some(task) => {
            &&& after == (StateView { local_queues: after.local_queues, ..before })
            &&& exists|k: int|
                {
                    let from = #[trigger] on_circle(start, k, n);
                    &&& 0 <= k < n
                    &&& forall|j: int|
                        0 <= j < k ==> spared(
                            before.local_queues,
                            own,
                            #[trigger] on_circle(start, j, n),
                        )
                    &&& from != own
                    &&& robs(
                        before.local_queues[from].1,
                        task,
                        after.local_queues[from].1,
                        after.local_queues[own].1,
                    )
                    &&& same_queues_but(before, after, own, from)
                }
        },
        None => {
            &&& after == before
            &&& forall|i: int|
                0 <= i < n && i != own ==> (#[trigger] before.local_queues[i]).1.len() == 0
        },
    }
}

/// Stealing from other runners robs the first one on the circle that has tasks of half of them.
pub proof fn law_steal_from_others<W>()
    ensures
        forall|runner: &Runner, state: &mut State<W>, start: usize, task: Option<u64>, own: int|
            {
                &&& state.wf()
                &&& start < state@.local_queues.len()
                &&& 0 <= own < state@.local_queues.len()
                &&& (#[trigger] state@.local_queues[own]).0 == runner@.id
                &&& state@.local_queues[own].1.len() == 0
                &&& #[trigger] call_ensures(
                    Runner::steal_from_others::<W>,
                    (runner, state, start),
                    task,
                )
            } ==> robs_someone(state@, own, start as int, task, final(state)@),
{
    assert forall|
        runner: &Runner,
        state: &mut State<W>,
        start: usize,
        task: Option<u64>,
        own: int,
    |
        {
            &&& state.wf()
            &&& start < state@.local_queues.len()
            &&& 0 <= own < state@.local_queues.len()
            &&& (#[trigger] state@.local_queues[own]).0 == runner@.id
            &&& state@.local_queues[own].1.len() == 0
            &&& #[trigger] call_ensures(
                Runner::steal_from_others::<W>,
                (runner, state, start),
                task,
            )
        } implies robs_someone(state@, own, start as int, task, final(state)@) by {
        let before = state@;
        let queues = before.local_queues;
        before.lemma_runner_position(own);
        lemma_victim(queues, own, start as int, 0);
        if let Some(from) = before.victim(own, start as int) {
            let at = lemma_first_victim(queues, own, start as int, 0);
            assert(on_circle(start as int, at, queues.len() as int) == from);
            lemma_robs(before, own, from);
        }
    }
}

/// Polling a runner gives the next task to run: the oldest of its own; if it has none, the oldest
/// in the global queue, of which it takes its share; if that is empty, the oldest of another
/// runner, of whose tasks it takes half. With every sixty-fourth task it takes its share of the
/// global queue besides. Another ticker is notified, and its waker comes with the task. The runner
/// sleeps exactly if there is no task in any queue.
pub open spec fn polls_runner<W: Clone>(
    before: StateView<W>,
    runner: RunnerView,
    own: int,
    waker: W,
    polled: Polled<W>,
    next: RunnerView,
    after: StateView<W>,
) -> bool {
    &&& next.id == runner.id
    &&& after.active == before.active
    &&& match polled {
        Polled::Ready(tick) => {
            &&& serves(before, own, next.ticks % 64 == 0, tick.task, after)
            &&& awakes(before.sleepers, runner.sleeping, after.sleepers)
            &&& notifies(before.sleepers, runner.sleeping, given(tick.wake), after.sleepers)
            &&& next.sleeping == 0
            &&& next.ticks == runner.ticks + 1 || (runner.ticks == usize::MAX && next.ticks == 0)
        },
        Polled::Pending => {
            &&& before.queue.len() == 0
            &&& forall|i: int|
                0 <= i < before.local_queues.len() ==> (
                #[trigger] before.local_queues[i]).1.len() == 0
            &&& same_tasks(before, after)
            &&& falls_asleep(
                before.sleepers,
                runner.sleeping,
                waker,
                next.sleeping,
                after.sleepers,
            )
            &&& next.ticks == runner.ticks
        },
    }
}

/// What a search comes back with is found.
proof fn lemma_finds<W>(state: StateView<W>, own: int, start: int)
    requires
        state.wf(),
        0 <= own < state.local_queues.len(),
        0 <= start < state.local_queues.len(),
        state.search_result(own, start) is Some,
    ensures
        finds(state, own, state.search_result(own, start)->0, state.searched(own, start)),
{
    let after = state.searched(own, start);
    let tasks = state.local_queues[own].1;
    if tasks.len() > 0 {
        assert(tasks =~= seq![tasks[0]] + tasks.drop_first());
    } else if state.queue.len() > 0 {
        let rest = state.queue.drop_first();
        lemma_steals(rest, tasks, local_capacity());
    } else {
        lemma_victim(state.local_queues, own, start, 0);
        if let Some(from) = state.victim(own, start) {
            lemma_robs(state, own, from);
            assert(robs(
                state.local_queues[from].1,
                state.local_queues[from].1[0],
                after.local_queues[from].1,
                after.local_queues[own].1,
            ));
        }
    }
}

/// What the contract of a poll gives.
pub(crate) proof fn lemma_polls_runner<W: Clone>(
    state: StateView<W>,
    runner: RunnerView,
    own: int,
    waker: W,
    polled: Polled<W>,
    next: RunnerView,
    after: StateView<W>,
)
    requires
        state.wf(),
        runner_valid(runner, state),
        state.idle() && runner.sleeping == 0 ==> state.sleepers.count < usize::MAX,
        0 <= own < state.local_queues.len(),
        state.local_queues[own].0 == runner.id,
        state.runner_outcome(runner, waker, polled, next, after),
    ensures
        polls_runner(state, runner, own, waker, polled, next, after),
{
    state.lemma_runner_position(own);
    match polled {
        Polled::Ready(tick) => {
            let start = choose|start: int|
                {
                    &&& 0 <= start < state.local_queues.len()
                    &&& state.search_result(own, start) == Some(tick.task)
                    &&& after == #[trigger] state.served(runner, start)
                };
            let searched = state.searched(own, start);
            state.lemma_search(own, start);
            lemma_finds(state, own, start);
            lemma_acted_wf(state, Action::Search(own, start));
            lemma_found(searched, runner.sleeping);
            lemma_steals(searched.queue, searched.local_queues[own].1, local_capacity());
            assert(finds(state, own, tick.task, searched));
            if next.ticks % 64 == 0 {
                assert(refills(searched, own, after));
            }
            assert(searched.woken(runner.sleeping).notification() == state.woken(
                runner.sleeping,
            ).notification());
        },
        Polled::Pending => {
            lemma_sleep(state, runner.sleeping, waker, next.sleeping, after);
        },
    }
}

/// Polling a runner gives the next task to run by the order own, global, others, and notifies
/// another ticker, whose waker comes with the task.
pub proof fn law_runnable<W: Clone>()
    ensures
        forall|
            runner: &mut Runner,
            state: &mut State<W>,
            rng: &mut Rng,
            waker: &W,
            polled: Polled<W>,
            own: int,
        |
            {
                &&& state.wf()
                &&& runner_valid(runner@, state@)
                &&& state@.idle() && runner@.sleeping == 0 ==> state@.sleepers.count < usize::MAX
                &&& 0 <= own < state@.local_queues.len()
                &&& (#[trigger] state@.local_queues[own]).0 == runner@.id
                &&& #[trigger] call_ensures(
                    Runner::runnable::<W>,
                    (runner, state, rng, waker),
                    polled,
                )
            } ==> polls_runner(
                state@,
                runner@,
                own,
                *waker,
                polled,
                final(runner)@,
                final(state)@,
            ),
{
    assert forall|
        runner: &mut Runner,
        state: &mut State<W>,
        rng: &mut Rng,
        waker: &W,
        polled: Polled<W>,
        own: int,
    |
        {
            &&& state.wf()
            &&& runner_valid(runner@, state@)
            &&& state@.idle() && runner@.sleeping == 0 ==> state@.sleepers.count < usize::MAX
            &&& 0 <= own < state@.local_queues.len()
            &&& (#[trigger] state@.local_queues[own]).0 == runner@.id
            &&& #[trigger] call_ensures(Runner::runnable::<W>, (runner, state, rng, waker), polled)
        } implies polls_runner(
        state@,
        runner@,
        own,
        *waker,
        polled,
        final(runner)@,
        final(state)@,
    ) by {
        lemma_polls_runner(
            state@,
            runner@,
            own,
            *waker,
            polled,
            final(runner)@,
            final(state)@,
        );
    }
}

/// Whether a runner is registered under an identifier.
pub open spec fn in_use<W>(state: StateView<W>, id: usize) -> bool {
    exists|i: int| 0 <= i < state.local_queues.len() && (#[trigger] state.local_queues[i]).0 == id
}

/// A runner is registered behind the others, under the least identifier that none of them has, and
/// without tasks. Nothing else changes.
pub open spec fn registers<W>(before: StateView<W>, id: usize, after: StateView<W>) -> bool {
    &&& !in_use(before, id)
    &&& forall|lower: usize| lower < id ==> #[trigger] in_use(before, lower)
    &&& after.local_queues.len() == before.local_queues.len() + 1
    &&& after.local_queues.last() == (id, Seq::<u64>::empty())
    &&& after.local_queues.drop_last() == before.local_queues
    &&& after == (StateView { local_queues: after.local_queues, ..before })
}

/// A new runner is registered, awake, and has found nothing. A new run has a new runner.
pub proof fn law_register<W>()
    ensures
        forall|state: &mut State<W>, runner: Runner|
            state.wf() && #[trigger] call_ensures(Runner::new::<W>, (state,), runner) ==> {
                &&& registers(state@, runner@.id, final(state)@)
                &&& runner@.sleeping == 0
                &&& runner@.ticks == 0
            },
        forall|state: &mut State<W>, run: Run|
            state.wf() && #[trigger] call_ensures(Run::new::<W>, (state,), run) ==> {
                &&& registers(state@, run@.runner.id, final(state)@)
                &&& run@.runner.sleeping == 0
                &&& run@.runner.ticks == 0
                &&& run@.served == 0
            },
{
    assert forall|state: StateView<W>, id: usize|
        {
            &&& !state.has_runner(id)
            &&& forall|lower: usize| lower < id ==> state.has_runner(lower)
        } implies registers(state, id, #[trigger] state.with_runner(id)) by {
        assert(state.with_runner(id).local_queues.drop_last() =~= state.local_queues);
        assert forall|lower: usize| lower < id implies #[trigger] in_use(state, lower) by {
            assert(state.has_runner(lower));
        }
    }
}

/// A runner is dropped: its queue is gone, and its tasks are behind the others in the global
/// queue. The wakers handed out are those of exactly the other tickers that were listed before
/// and are not after; before them comes its own, if it was asleep with tasks and first in the
/// list. If there were tasks or the runner was notified, another ticker is notified; if neither,
/// nobody is woken.
pub open spec fn drops_runner<W>(
    before: StateView<W>,
    runner: RunnerView,
    own: int,
    wakes: Seq<W>,
    after: StateView<W>,
) -> bool {
    let me = runner.sleeping;
    let tasks = before.local_queues[own].1;
    let notified = me != 0 && !before.sleepers.listed(me);
    &&& after.queue == before.queue + tasks
    &&& after.local_queues == before.local_queues.remove(own)
    &&& after.active == before.active
    &&& awakes(before.sleepers, me, after.sleepers)
    &&& exists|mine: Seq<W>, rest: Seq<W>|
        {
            &&& wakes == #[trigger] (mine + rest)
            &&& mine.len() == 0 || {
                &&& tasks.len() > 0
                &&& before.sleepers.wakers.len() > 0
                &&& before.sleepers.wakers[0].0 == me
                &&& mine == seq![before.sleepers.wakers[0].1]
            }
            &&& if tasks.len() > 0 || notified {
                notifies(before.sleepers, me, rest, after.sleepers)
            } else {
                &&& rest.len() == 0
                &&& hands_out(before.sleepers, me, rest, after.sleepers)
            }
        }
}

/// The first ticker in the list is the first of the others, unless it is `me`.
proof fn lemma_others_first<W>(wakers: Seq<(usize, W)>, me: usize)
    requires
        wakers.len() > 0,
    ensures
        wakers[0].0 == me ==> others(wakers.drop_first(), me) == others(wakers, me),
        wakers[0].0 != me ==> {
            &&& others(wakers, me).len() > 0
            &&& others(wakers, me)[0] == wakers[0]
            &&& others(wakers.drop_first(), me) == others(wakers, me).drop_first()
        },
    decreases wakers.len(),
{
    let rest = wakers.drop_last();
    if wakers.len() == 1 {
        assert(rest =~= Seq::<(usize, W)>::empty());
        assert(wakers.drop_first() =~= Seq::<(usize, W)>::empty());
        assert(others(rest, me) == rest);
        assert(others(wakers.drop_first(), me) == wakers.drop_first());
        if wakers[0].0 != me {
            assert(others(wakers, me) =~= seq![wakers[0]]);
            assert(others(wakers, me).drop_first() =~= Seq::<(usize, W)>::empty());
        }
    } else {
        lemma_others_first(rest, me);
        assert(wakers.drop_first().drop_last() =~= rest.drop_first());
        assert(wakers.drop_first().last() == wakers.last());
        assert(rest[0] == wakers[0]);
        if wakers[0].0 != me {
            assert(others(wakers.drop_first(), me) =~= others(wakers, me).drop_first());
        }
    }
}

/// What the contract of dropping a runner gives.
proof fn lemma_drops_runner<W>(state: StateView<W>, runner: RunnerView, own: int)
    requires
        state.wf(),
        runner_valid(runner, state),
        0 <= own < state.local_queues.len(),
        state.local_queues[own].0 == runner.id,
    ensures
        drops_runner(
            state,
            runner,
            own,
            state.runner_dropped_wakes(runner),
            state.runner_dropped(runner),
        ),
{
    let me = runner.sleeping;
    let tasks = state.local_queues[own].1;
    let after = state.runner_dropped(runner);
    let wakes = state.runner_dropped_wakes(runner);
    state.lemma_runner_position(own);
    let removed = state.without_runner(own);
    assert(removed.wf());
    let unregistered = state.unregistered(runner);
    let before = state.sleepers;
    removed.lemma_notify();
    before.lemma_listed_at_most_count();
    before.lemma_after_notify();
    assert(ticker_valid(me, unregistered));
    assert(unregistered.wf());
    lemma_drops_ticker(unregistered, me);
    lemma_woken(unregistered, me);
    lemma_woken(state, me);
    let last = given(unregistered.ticker_dropped_wake(me));
    let first = removed.rescheduled_wakes(tasks);
    assert(wakes =~= first + last);
    assert forall|id: usize| #[trigger] after.sleepers.asleep(id) <==> before.asleep(id) && id
        != me by {
        assert(unregistered.sleepers.asleep(id) <==> before.asleep(id));
    }
    if tasks.len() == 0 {
        assert(state.queue + tasks =~= state.queue);
        assert(first + last =~= Seq::<W>::empty() + last);
    } else if removed.notified {
        assert(first + last =~= Seq::<W>::empty() + last);
        assert(notifies(before, me, last, after.sleepers));
    } else {
        let head = before.wakers[0];
        assert(first =~= seq![head.1]);
        lemma_others_first(before.wakers, me);
        assert(unregistered.sleepers.wakers == before.wakers.drop_first());
        if head.0 == me {
            before.lemma_position(0);
            assert(unregistered.ticker_notified(me));
            assert(notifies(before, me, last, after.sleepers));
            assert(wakes == first + last);
        } else {
            assert(me != 0 ==> before.listed(me));
            if me != 0 {
                let i = before.position(me);
                assert(before.wakers[i].0 == me);
                assert(unregistered.sleepers.wakers[i - 1].0 == me);
            }
            assert(last =~= Seq::<W>::empty());
            assert(after.sleepers.wakers == others(before.wakers, me).drop_first());
            assert(notifies(before, me, first, after.sleepers));
            assert(wakes =~= Seq::<W>::empty() + first);
        }
    }
}

/// Dropping a runner gives its tasks back and passes its notification on: the wakers that come of
/// it are those of the tickers that were notified.
pub proof fn law_drop_runner<W>()
    ensures
        forall|runner: Runner, state: &mut State<W>, wakes: Vec<W>, own: int|
            {
                &&& state.wf()
                &&& runner_valid(runner@, state@)
                &&& 0 <= own < state@.local_queues.len()
                &&& (#[trigger] state@.local_queues[own]).0 == runner@.id
                &&& #[trigger] call_ensures(Runner::drop::<W>, (runner, state), wakes)
            } ==> drops_runner(state@, runner@, own, wakes@, final(state)@),
        forall|run: Run, state: &mut State<W>, wakes: Vec<W>, own: int|
            {
                &&& state.wf()
                &&& runner_valid(run@.runner, state@)
                &&& 0 <= own < state@.local_queues.len()
                &&& (#[trigger] state@.local_queues[own]).0 == run@.runner.id
                &&& #[trigger] call_ensures(Run::drop::<W>, (run, state), wakes)
            } ==> drops_runner(state@, run@.runner, own, wakes@, final(state)@),
{
    assert forall|state: StateView<W>, runner: RunnerView, own: int|
        {
            &&& state.wf()
            &&& runner_valid(runner, state)
            &&& 0 <= own < state.local_queues.len()
            &&& (#[trigger] state.local_queues[own]).0 == runner.id
        } implies drops_runner(
        state,
        runner,
        own,
        state.runner_dropped_wakes(runner),
        #[trigger] state.runner_dropped(runner),
    ) by {
        lemma_drops_runner(state, runner, own);
    }
}

/// If a runner without tasks of its own is dropped, the wakers that come of it are those of
/// exactly the other tickers that were taken off the list. If it was notified and other tickers
/// sleep, none of which is notified, one is woken.
pub proof fn law_drop_runner_without_tasks<W>(
    before: StateView<W>,
    runner: RunnerView,
    own: int,
    wakes: Seq<W>,
    after: StateView<W>,
)
    requires
        drops_runner(before, runner, own, wakes, after),
        runner.sleeping != 0 ==> before.local_queues[own].1.len() == 0,
        before.wf(),
        runner_valid(runner, before),
    ensures
        hands_out(before.sleepers, runner.sleeping, wakes, after.sleepers),
        before.sleepers.count > 1 && runner.sleeping != 0 && !before.sleepers.listed(
            runner.sleeping,
        ) ==> wakes.len() == 1,
{
    let (mine, rest) = choose|mine: Seq<W>, rest: Seq<W>|
        {
            &&& wakes == #[trigger] (mine + rest)
            &&& mine.len() == 0 || {
                &&& before.local_queues[own].1.len() > 0
                &&& before.sleepers.wakers.len() > 0
                &&& before.sleepers.wakers[0].0 == runner.sleeping
                &&& mine == seq![before.sleepers.wakers[0].1]
            }
            &&& if before.local_queues[own].1.len() > 0 || (runner.sleeping != 0
                && !before.sleepers.listed(runner.sleeping)) {
                notifies(before.sleepers, runner.sleeping, rest, after.sleepers)
            } else {
                &&& rest.len() == 0
                &&& hands_out(before.sleepers, runner.sleeping, rest, after.sleepers)
            }
        };
    if mine.len() > 0 {
        assert(before.sleepers.asleep(before.sleepers.wakers[0].0));
    }
    assert(wakes =~= rest);
    lemma_woken(before, runner.sleeping);
    if before.sleepers.count > 1 && runner.sleeping != 0 && !before.sleepers.listed(
        runner.sleeping,
    ) {
        before.sleepers.lemma_listed_at_most_count();
        lemma_others_absent(before.sleepers.wakers, runner.sleeping);
        assert(others(before.sleepers.wakers, runner.sleeping) == before.sleepers.wakers);
        lemma_others_bound(after.sleepers.wakers, runner.sleeping);
    }
}

} // verus!
