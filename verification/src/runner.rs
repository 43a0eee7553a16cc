//! Runners: tickers with a local queue, which steal tasks from each other.

use crate::queue;
use crate::queue::{queue_capacity, queue_closed, queued, steal, steal_count};
use crate::random;
use crate::state::{local_tasks, LocalQueue, State, StateView, LOCAL_QUEUE_CAPACITY};
use crate::ticker::{ticker_valid, Polled, Step, Ticker};
use fastrand::Rng;
use vstd::prelude::*;
use vstd::set_lib::*;

verus! {

/// A runner steals tasks from the global queue each time it found this many tasks.
pub const STEAL_INTERVAL: usize = 64;

/// The place that is `k` steps behind `start` on a circle of `n` places.
pub open spec fn rotated(start: int, k: int, n: int) -> int {
    if start + k < n {
        start + k
    } else {
        start + k - n
    }
}

/// The first queue with a task, other than the one at `own`, from the `k`th after `start` on.
pub open spec fn victim(
    queues: Seq<(usize, Seq<u64>)>,
    own: int,
    start: int,
    k: int,
) -> Option<int>
    decreases queues.len() - k,
{
    if k >= queues.len() {
        None
    } else {
        let i = rotated(start, k, queues.len() as int);
        if i != own && queues[i].1.len() > 0 {
            Some(i)
        } else {
            victim(queues, own, start, k + 1)
        }
    }
}

/// No queue but the one at `own` has a task exactly if there is no victim.
pub proof fn lemma_victim(queues: Seq<(usize, Seq<u64>)>, own: int, start: int, k: int)
    requires
        0 <= start < queues.len(),
        0 <= k <= queues.len(),
    ensures
        victim(queues, own, start, k) matches Some(i) ==> 0 <= i < queues.len() && i != own
            && queues[i].1.len() > 0,
        victim(queues, own, start, k) is None <==> forall|j: int|
            k <= j < queues.len() ==> {
                let i = #[trigger] rotated(start, j, queues.len() as int);
                i == own || queues[i].1.len() == 0
            },
        k == 0 ==> (victim(queues, own, start, k) is None <==> forall|i: int|
            0 <= i < queues.len() && i != own ==> (#[trigger] queues[i]).1.len() == 0),
    decreases queues.len() - k,
{
    let n = queues.len() as int;
    if k < queues.len() {
        lemma_victim(queues, own, start, k + 1);
    }
    if k == 0 {
        if victim(queues, own, start, 0) is None {
            assert forall|i: int| 0 <= i < queues.len() && i != own implies (
            #[trigger] queues[i]).1.len() == 0 by {
                let j = if i >= start {
                    i - start
                } else {
                    i - start + n
                };
                assert(rotated(start, j, n) == i);
            }
        }
    }
}

impl<W> StateView<W> {
    /// Whether the runner `id` is registered.
    pub open spec fn has_runner(self, id: usize) -> bool {
        exists|i: int| 0 <= i < self.local_queues.len() && (#[trigger] self.local_queues[i]).0 == id
    }

    /// The position of the runner `id`.
    pub open spec fn runner_position(self, id: usize) -> int {
        choose|i: int| 0 <= i < self.local_queues.len() && (#[trigger] self.local_queues[i]).0 == id
    }

    /// The state with one more runner.
    pub open spec fn with_runner(self, id: usize) -> Self {
        StateView { local_queues: self.local_queues.push((id, Seq::empty())), ..self }
    }

    /// The state without the runner at position `own`.
    pub open spec fn without_runner(self, own: int) -> Self {
        StateView { local_queues: self.local_queues.remove(own), ..self }
    }

    /// Whether no queue has a task.
    pub open spec fn idle(self) -> bool {
        &&& self.queue.len() == 0
        &&& forall|i: int|
            0 <= i < self.local_queues.len() ==> (#[trigger] self.local_queues[i]).1.len() == 0
    }

    /// The state after the runner at position `own` stole from the global queue.
    pub open spec fn refilled(self, own: int) -> Self {
        let tasks = self.local_queues[own].1;
        let count = steal_count(self.queue.len(), tasks.len(), Some(LOCAL_QUEUE_CAPACITY)) as int;
        self.with_queue(self.queue.skip(count)).with_local(own, tasks + self.queue.take(count))
    }

    /// The queue that a runner at position `own` with an empty queue robs, if it looks at the
    /// other queues from `start` on.
    pub open spec fn victim(self, own: int, start: int) -> Option<int> {
        victim(self.local_queues, own, start, 0)
    }

    /// The state after the runner at position `own` robbed the queue at position `from` and took
    /// the first task.
    pub open spec fn robbed(self, own: int, from: int) -> Self {
        let tasks = self.local_queues[from].1;
        let count = steal_count(tasks.len(), 0, Some(LOCAL_QUEUE_CAPACITY)) as int;
        self.with_local(from, tasks.skip(count)).with_local(own, tasks.subrange(1, count))
    }

    /// The task that the runner at position `own` finds.
    pub open spec fn search_result(self, own: int, start: int) -> Option<u64> {
        if self.local_queues[own].1.len() > 0 {
            Some(self.local_queues[own].1[0])
        } else if self.queue.len() > 0 {
            Some(self.queue[0])
        } else {
            match self.victim(own, start) {
                Some(from) => Some(self.local_queues[from].1[0]),
                None => None,
            }
        }
    }

    /// The state after the runner at position `own` searched for a task.
    pub open spec fn searched(self, own: int, start: int) -> Self {
        if self.local_queues[own].1.len() > 0 {
            self.with_local(own, self.local_queues[own].1.drop_first())
        } else if self.queue.len() > 0 {
            self.with_queue(self.queue.drop_first()).refilled(own)
        } else {
            match self.victim(own, start) {
                Some(from) => self.robbed(own, from),
                None => self,
            }
        }
    }

    /// Whether the runner at position `own` may come back from a search with `task` and leave the
    /// state as it is in `after`: it may start with any of the queues.
    pub open spec fn search_outcome(self, own: int, task: Option<u64>, after: Self) -> bool {
        exists|start: int|
            {
                &&& 0 <= start < self.local_queues.len()
                &&& task == self.search_result(own, start)
                &&& after == #[trigger] self.searched(own, start)
            }
    }

    /// A runner finds nothing exactly if no queue has a task, and then leaves all as it was.
    pub proof fn lemma_search(self, own: int, start: int)
        requires
            0 <= own < self.local_queues.len(),
            0 <= start < self.local_queues.len(),
        ensures
            self.search_result(own, start) is None <==> self.idle(),
            self.idle() ==> self.searched(own, start) == self,
            self.searched(own, start).same_runners(self),
    {
        lemma_victim(self.local_queues, own, start, 0);
    }

    /// Whether two states differ only in the tasks that the queues hold.
    pub open spec fn same_runners(self, other: Self) -> bool {
        &&& self.local_queues.len() == other.local_queues.len()
        &&& forall|i: int|
            0 <= i < self.local_queues.len() ==> (#[trigger] self.local_queues[i]).0
                == other.local_queues[i].0
        &&& self.sleepers == other.sleepers
        &&& self.notified == other.notified
        &&& self.active == other.active
    }

    /// The state after `runner` found a task, having started with the queue at `start`.
    pub open spec fn served(self, runner: RunnerView, start: int) -> Self {
        let own = self.runner_position(runner.id);
        let found = self.searched(own, start).found(runner.sleeping);
        if next_ticks(runner.ticks) % STEAL_INTERVAL == 0 {
            found.refilled(own)
        } else {
            found
        }
    }

    /// Whether polling `runner` may come back with `task` and leave the state as it is in
    /// `after`: it may start with any of the queues.
    pub open spec fn serve_outcome(self, runner: RunnerView, task: u64, after: Self) -> bool {
        exists|start: int|
            {
                &&& 0 <= start < self.local_queues.len()
                &&& self.search_result(self.runner_position(runner.id), start) == Some(task)
                &&& after == #[trigger] self.served(runner, start)
            }
    }

    /// The state after `tasks` were scheduled one after the other.
    pub open spec fn rescheduled(self, tasks: Seq<u64>) -> Self {
        if tasks.len() == 0 {
            self
        } else {
            self.with_queue(self.queue + tasks).after_notify()
        }
    }

    /// The wakers handed out when `tasks` are scheduled one after the other: at most one.
    pub open spec fn rescheduled_wakes(self, tasks: Seq<u64>) -> Seq<W> {
        match self.notification() {
            Some(waker) if tasks.len() > 0 => seq![waker],
            _ => Seq::empty(),
        }
    }

    /// The state after `runner` was unregistered and its tasks rescheduled.
    pub open spec fn unregistered(self, runner: RunnerView) -> Self {
        let own = self.runner_position(runner.id);
        self.without_runner(own).rescheduled(self.local_queues[own].1)
    }

    /// The state after `runner` was dropped.
    pub open spec fn runner_dropped(self, runner: RunnerView) -> Self {
        self.unregistered(runner).ticker_dropped(runner.sleeping)
    }

    /// The wakers handed out when `runner` is dropped.
    pub open spec fn runner_dropped_wakes(self, runner: RunnerView) -> Seq<W> {
        let own = self.runner_position(runner.id);
        let wakes = self.without_runner(own).rescheduled_wakes(self.local_queues[own].1);
        match self.unregistered(runner).ticker_dropped_wake(runner.sleeping) {
            Some(waker) => wakes.push(waker),
            None => wakes,
        }
    }

    /// A runner is registered in one place only.
    pub proof fn lemma_runner_position(self, i: int)
        requires
            self.wf(),
            0 <= i < self.local_queues.len(),
        ensures
            self.has_runner(self.local_queues[i].0),
            self.runner_position(self.local_queues[i].0) == i,
    {
    }

    /// Other tasks in a local queue, as long as they fit, leave the state well formed.
    pub proof fn lemma_with_local(self, i: int, tasks: Seq<u64>)
        requires
            self.wf(),
            0 <= i < self.local_queues.len(),
            tasks.len() <= LOCAL_QUEUE_CAPACITY,
        ensures
            self.with_local(i, tasks).wf(),
    {
    }

    /// Numbers that are all in use as identifiers of runners are at most as many as runners.
    proof fn lemma_runner_ids(self, n: int)
        requires
            0 <= n <= usize::MAX + 1,
            forall|id: usize| id < n ==> self.has_runner(id),
        ensures
            n <= self.local_queues.len(),
    {
        let ids = Seq::new(self.local_queues.len(), |i: int| self.local_queues[i].0 as int);
        assert forall|id: int| #[trigger] set_int_range(0, n).contains(id) implies ids.to_set(

        ).contains(id) by {
            assert(self.has_runner(id as usize));
            let i = self.runner_position(id as usize);
            assert(ids[i] == id);
        }
        lemma_int_range(0, n);
        ids.lemma_cardinality_of_set();
        lemma_len_subset(set_int_range(0, n), ids.to_set());
    }
}

/// What a runner holds.
pub struct RunnerView {
    /// The identifier under which its ticker sleeps, zero if it is awake.
    pub sleeping: usize,
    /// The identifier of its local queue.
    pub id: usize,
    /// How many tasks it found, wrapping around.
    pub ticks: usize,
}

/// The number of tasks that a runner found, after it found one more.
pub open spec fn next_ticks(ticks: usize) -> usize {
    if ticks == usize::MAX {
        0
    } else {
        (ticks + 1) as usize
    }
}

impl RunnerView {
    /// The runner after it found a task.
    pub open spec fn after_task(self) -> Self {
        RunnerView { sleeping: 0, ticks: next_ticks(self.ticks), ..self }
    }
}

/// Whether a runner belongs to a state.
pub open spec fn runner_valid<W>(runner: RunnerView, state: StateView<W>) -> bool {
    ticker_valid(runner.sleeping, state) && state.has_runner(runner.id)
}

impl<W: Clone> StateView<W> {
    /// Whether polling a runner may give `polled`, and leave the runner as it is in `next` and
    /// the state as it is in `after`.
    pub open spec fn runner_outcome(
        self,
        runner: RunnerView,
        waker: W,
        polled: Polled<W>,
        next: RunnerView,
        after: Self,
    ) -> bool {
        match polled {
            Polled::Ready(tick) => {
                &&& !self.idle()
                &&& self.serve_outcome(runner, tick.task, after)
                &&& tick.wake == self.woken(runner.sleeping).notification()
                &&& next == runner.after_task()
            },
            Polled::Pending => {
                &&& self.idle()
                &&& self.sleep_outcome(runner.sleeping, waker, next.sleeping, after)
                &&& next == (RunnerView { sleeping: next.sleeping, ..runner })
            },
        }
    }
}

/// A worker in a work-stealing executor.
///
/// This is just a ticker that also has an associated local queue for improved cache locality.
pub struct Runner {
    /// Inner ticker.
    ticker: Ticker,
    /// The local queue.
    local: usize,
    /// Bumped every time a runnable task is found.
    ticks: usize,
}

impl View for Runner {
    type V = RunnerView;

    closed spec fn view(&self) -> RunnerView {
        RunnerView { sleeping: self.ticker@, id: self.local, ticks: self.ticks }
    }
}

impl<W> State<W> {
    /// The position of the runner `id`, if it is registered.
    fn runner_index(&self, id: usize) -> (index: Option<usize>)
        requires
            self.wf(),
        ensures
            index is Some <==> self@.has_runner(id),
            index matches Some(i) ==> i < self.local_queues@.len() && i == self@.runner_position(id)
                && self@.local_queues[i as int].0 == id,
    {
        let mut i: usize = 0;
        while i < self.local_queues.len()
            invariant
                self.wf(),
                i <= self.local_queues@.len(),
                forall|j: int| 0 <= j < i ==> (#[trigger] self@.local_queues[j]).0 != id,
            decreases self.local_queues@.len() - i,
        {
            assert(self@.local_queues[i as int].0 == self.local_queues@[i as int].runner);
            if self.local_queues[i].runner == id {
                proof {
                    self@.lemma_runner_position(i as int);
                }
                return Some(i);
            }
            i = i + 1;
        }
        None
    }
}

impl Runner {
    /// Creates a runner and registers it in the executor state.
    ///
    /// The runner gets the least identifier that no other registered runner has.
    pub fn new<W>(state: &mut State<W>) -> (runner: Runner)
        requires
            old(state).wf(),
        ensures
            runner@.sleeping == 0,
            runner@.ticks == 0,
            !old(state)@.has_runner(runner@.id),
            forall|id: usize| id < runner@.id ==> old(state)@.has_runner(id),
            final(state)@ == old(state)@.with_runner(runner@.id),
            runner_valid(runner@, final(state)@),
            final(state).wf(),
    {
        let mut id: usize = 0;
        while state.runner_index(id).is_some()
            invariant
                state.wf(),
                state@ == old(state)@,
                id <= state.local_queues@.len(),
                forall|j: usize| j < id ==> state@.has_runner(j),
            decreases state.local_queues@.len() - id,
        {
            proof {
                state@.lemma_runner_ids(id + 1);
                assert(state@.local_queues.len() == state.local_queues.len());
            }
            id = id + 1;
        }
        let tasks = queue::bounded(LOCAL_QUEUE_CAPACITY);
        state.local_queues.push(LocalQueue { runner: id, tasks });
        proof {
            assert(state@.local_queues =~= old(state)@.with_runner(id).local_queues);
            assert(state@.local_queues.last().0 == id);
            assert forall|j: int|
                0 <= j < old(state)@.local_queues.len() implies (#[trigger] state@.local_queues[j]).0
                != id by {
                assert(old(state)@.local_queues[j] == state@.local_queues[j]);
            }
        }
        Runner { ticker: Ticker::new(), local: id, ticks: 0 }
    }

    /// Steals tasks from the global queue into the local one.
    fn refill<W>(&self, state: &mut State<W>)
        requires
            old(state).wf(),
            old(state)@.has_runner(self@.id),
        ensures
            final(state)@ == old(state)@.refilled(old(state)@.runner_position(self@.id)),
            final(state).wf(),
    {
        if let Some(own) = state.runner_index(self.local) {
            let ghost before = state@;
            steal(&mut state.queue, &mut state.local_queues[own].tasks);
            proof {
                let tasks = before.local_queues[own as int].1;
                let count = steal_count(
                    before.queue.len(),
                    tasks.len(),
                    Some(LOCAL_QUEUE_CAPACITY),
                ) as int;
                before.lemma_with_local(own as int, tasks + before.queue.take(count));
                assert(state@ =~= before.refilled(own as int));
            }
        }
    }

    /// Tries stealing from other runners, whose queues are looked at in the order in which they
    /// were registered, from the one at position `start` on.
    ///
    /// The first queue with a task is robbed of half its tasks, and the first of them is
    /// returned.
    pub fn steal_from_others<W>(&self, state: &mut State<W>, start: usize) -> (task: Option<u64>)
        requires
            old(state).wf(),
            old(state)@.has_runner(self@.id),
            old(state)@.local_queues[old(state)@.runner_position(self@.id)].1.len() == 0,
            start < old(state)@.local_queues.len(),
        ensures
            ({
                let own = old(state)@.runner_position(self@.id);
                match old(state)@.victim(own, start as int) {
                    Some(from) => {
                        &&& task == Some(old(state)@.local_queues[from].1[0])
                        &&& final(state)@ == old(state)@.robbed(own, from)
                    },
                    None => task is None && final(state)@ == old(state)@,
                }
            }),
            final(state).wf(),
    {
        let ghost before = state@;
        let ghost queues = before.local_queues;
        if let Some(own) = state.runner_index(self.local) {
            let n: usize = state.local_queues.len();

            // Remove this runner's local queue.
            let mut local = state.local_queues.remove(own);
            let mut task: Option<u64> = None;

            // Try stealing from each local queue in the list.
            let mut k: usize = 0;
            while k < n && task.is_none()
                invariant
                    n == queues.len(),
                    own < n,
                    start < n,
                    k <= n,
                    queues == before.local_queues,
                    before.wf(),
                    local.wf(),
                    local.runner == queues[own as int].0,
                    state.local_queues@.len() == n - 1,
                    forall|i: int|
                        0 <= i < n - 1 ==> (#[trigger] state.local_queues@[i]).wf(),
                    state@ == (StateView { local_queues: state@.local_queues, ..before }),
                    queue_capacity(state.queue) == None::<usize>,
                    !queue_closed(state.queue),
                    task is None ==> {
                        &&& queued(local.tasks).len() == 0
                        &&& state@.local_queues == queues.remove(own as int)
                        &&& victim(queues, own as int, start as int, 0) == victim(
                            queues,
                            own as int,
                            start as int,
                            k as int,
                        )
                    },
                    task matches Some(t) ==> (victim(queues, own as int, start as int, 0) matches Some(
                        from,
                    ) && {
                        let tasks = queues[from].1;
                        let count = steal_count(
                            tasks.len(),
                            0,
                            Some(LOCAL_QUEUE_CAPACITY),
                        ) as int;
                        &&& 0 <= from < n
                        &&& from != own
                        &&& t == tasks[0]
                        &&& queued(local.tasks) == tasks.subrange(1, count)
                        &&& state@.local_queues == queues.update(
                            from,
                            (queues[from].0, tasks.skip(count)),
                        ).remove(own as int)
                    }),
                decreases n - k,
            {
                let i: usize = if start < n - k {
                    start + k
                } else {
                    start - (n - k)
                };
                assert(i == rotated(start as int, k as int, n as int));
                if i != own {
                    let j: usize = if i < own {
                        i
                    } else {
                        i - 1
                    };
                    let ghost tasks = queues[i as int].1;
                    assert(state@.local_queues[j as int] == queues[i as int]);
                    assert(queued(state.local_queues@[j as int].tasks) == tasks);
                    let ghost others = state.local_queues@;
                    steal(&mut state.local_queues[j].tasks, &mut local.tasks);
                    let ghost count = steal_count(
                        tasks.len(),
                        0,
                        Some(LOCAL_QUEUE_CAPACITY),
                    ) as int;
                    assert(queued(local.tasks) =~= tasks.take(count));
                    proof {
                        let robbed = queues.update(
                            i as int,
                            (queues[i as int].0, tasks.skip(count)),
                        ).remove(own as int);
                        assert forall|m: int| 0 <= m < n - 1 implies (
                        #[trigger] state@.local_queues[m]) == robbed[m] by {
                            assert(local_tasks(others)[m] == queues.remove(own as int)[m]);
                            if m != j {
                                assert(state.local_queues@[m] == others[m]);
                            }
                        }
                        assert(state@.local_queues =~= robbed);
                    }
                    task = queue::pop(&mut local.tasks);
                    proof {
                        if tasks.len() == 0 {
                            assert(tasks.skip(count) =~= tasks);
                            assert(queues.update(
                                i as int,
                                (queues[i as int].0, tasks.skip(count)),
                            ) =~= queues);
                        } else {
                            assert(tasks.take(count).drop_first() =~= tasks.subrange(1, count));
                        }
                    }
                }
                k = k + 1;
            }
            let ghost others = state@.local_queues;
            state.local_queues.insert(own, local);
            proof {
                assert(state@.local_queues =~= others.insert(own as int, local@));
                match victim(queues, own as int, start as int, 0) {
                    Some(from) => {
                        lemma_victim(queues, own as int, start as int, 0);
                        let tasks = queues[from].1;
                        let count = steal_count(
                            tasks.len(),
                            0,
                            Some(LOCAL_QUEUE_CAPACITY),
                        ) as int;
                        before.lemma_with_local(from, tasks.skip(count));
                        before.with_local(from, tasks.skip(count)).lemma_with_local(
                            own as int,
                            tasks.subrange(1, count),
                        );
                        assert(state@ =~= before.robbed(own as int, from));
                    },
                    None => {
                        assert(local@.1 =~= queues[own as int].1);
                        assert(state@ =~= before);
                    },
                }
            }
            task
        } else {
            None
        }
    }

    /// Searches for a task: in the local queue, then in the global queue, then in the queues of
    /// the other runners, from a random one on.
    fn search<W>(&self, state: &mut State<W>, rng: &mut Rng) -> (task: Option<u64>)
        requires
            old(state).wf(),
            old(state)@.has_runner(self@.id),
        ensures
            old(state)@.search_outcome(
                old(state)@.runner_position(self@.id),
                task,
                final(state)@,
            ),
            final(state).wf(),
    {
        let ghost before = state@;
        if let Some(own) = state.runner_index(self.local) {
            // Try the local queue.
            if let Some(task) = queue::pop(&mut state.local_queues[own].tasks) {
                proof {
                    let rest = before.local_queues[own as int].1.drop_first();
                    before.lemma_with_local(own as int, rest);
                    assert(state@ =~= before.searched(own as int, 0));
                }
                return Some(task);
            }
            assert(state@ =~= before);

            // Try stealing from the global queue.
            if let Some(task) = queue::pop(&mut state.queue) {
                proof {
                    assert(state@ =~= before.with_queue(before.queue.drop_first()));
                    state@.lemma_runner_position(own as int);
                }
                self.refill(state);
                assert(state@ == before.searched(own as int, 0));
                return Some(task);
            }
            assert(state@ =~= before);

            // Try stealing from other runners.
            let start: usize = random::below(rng, state.local_queues.len());
            let task = self.steal_from_others(state, start);
            assert(state@ == before.searched(own as int, start as int));
            task
        } else {
            None
        }
    }

    /// Waits for the next runnable task to run.
    ///
    /// This is one poll. If no queue has a task, the runner sleeps until its `waker` is handed
    /// out.
    pub fn runnable<W: Clone>(
        &mut self,
        state: &mut State<W>,
        rng: &mut Rng,
        waker: &W,
    ) -> (polled: Polled<W>)
        requires
            old(state).wf(),
            runner_valid(old(self)@, old(state)@),
            old(state)@.idle() && old(self)@.sleeping == 0 ==> old(state)@.sleepers.count
                < usize::MAX,
        ensures
            old(state)@.runner_outcome(old(self)@, *waker, polled, final(self)@, final(state)@),
            runner_valid(final(self)@, final(state)@),
            final(state).wf(),
    {
        let ghost before = state@;
        let ghost runner = self@;
        let ghost own = before.runner_position(runner.id);
        let ghost mut first = true;
        loop
            invariant
                before == old(state)@,
                runner == old(self)@,
                own == before.runner_position(runner.id),
                before.wf(),
                runner_valid(runner, before),
                before.idle() && runner.sleeping == 0 ==> before.sleepers.count < usize::MAX,
                state.wf(),
                runner_valid(self@, state@),
                self@.id == runner.id,
                self@.ticks == runner.ticks,
                first ==> self@ == runner && state@ == before,
                !first ==> {
                    &&& before.idle()
                    &&& self@.sleeping == before.slept_id(runner.sleeping)
                    &&& self@.sleeping != 0
                    &&& state@ == before.slept(
                        runner.sleeping,
                        state@.sleepers.waker_of(self@.sleeping),
                    )
                    &&& state@.sleepers.listed(self@.sleeping)
                },
            decreases (if first {
                    1int
                } else {
                    0
                }),
        {
            let ghost start_state = state@;
            let ghost sleeping = self@.sleeping;
            proof {
                state@.lemma_runner_position(own);
            }
            let found = self.search(state, rng);
            let ghost start = choose|start: int|
                {
                    &&& 0 <= start < start_state.local_queues.len()
                    &&& found == start_state.search_result(own, start)
                    &&& state@ == #[trigger] start_state.searched(own, start)
                };
            proof {
                start_state.lemma_search(own, start);
                assert(start_state.idle() == before.idle());
            }
            match self.ticker.runnable_with(state, found, waker) {
                Step::Ready(tick) => {
                    // Bump the tick counter.
                    self.ticks = self.ticks.wrapping_add(1);
                    proof {
                        assert(state@ == before.searched(own, start).found(runner.sleeping));
                        state@.lemma_runner_position(own);
                    }
                    if self.ticks % STEAL_INTERVAL == 0 {
                        // Steal tasks from the global queue to ensure fair task scheduling.
                        self.refill(state);
                    }
                    proof {
                        state@.lemma_runner_position(own);
                        assert(state@ == before.served(runner, start));
                    }
                    return Polled::Ready(tick);
                },
                Step::Again => {
                    proof {
                        state@.lemma_runner_position(own);
                    }
                },
                Step::Pending => {
                    proof {
                        if !first {
                            before.lemma_slept_twice(
                                runner.sleeping,
                                start_state.sleepers.waker_of(sleeping),
                                state@.sleepers.waker_of(self@.sleeping),
                            );
                        }
                        state@.lemma_runner_position(own);
                    }
                    return Polled::Pending;
                },
            }
            proof {
                first = false;
            }
        }
    }

    /// Drops the runner: its local queue is removed, and the tasks that remain in it are
    /// re-scheduled.
    ///
    /// Returns the wakers of the tickers to wake.
    pub fn drop<W>(self, state: &mut State<W>) -> (wakes: Vec<W>)
        requires
            old(state).wf(),
            runner_valid(self@, old(state)@),
        ensures
            wakes@ == old(state)@.runner_dropped_wakes(self@),
            final(state)@ == old(state)@.runner_dropped(self@),
            final(state).wf(),
    {
        let ghost before = state@;
        let mut wakes: Vec<W> = Vec::new();
        if let Some(own) = state.runner_index(self.local) {
            // Remove the local queue.
            let mut local = state.local_queues.remove(own);
            let ghost removed = before.without_runner(own as int);
            let ghost tasks = before.local_queues[own as int].1;
            proof {
                assert(state@ =~= removed);
            }

            // Re-schedule remaining tasks in the local queue.
            let ghost mut done: int = 0;
            assert(tasks.skip(0) =~= tasks);
            loop
                invariant
                    removed == before.without_runner(own as int),
                    tasks == before.local_queues[own as int].1,
                    state.wf(),
                    0 <= done <= tasks.len(),
                    queued(local.tasks) == tasks.skip(done),
                    state@ == removed.rescheduled(tasks.take(done)),
                    wakes@ == removed.rescheduled_wakes(tasks.take(done)),
                ensures
                    done == tasks.len(),
                decreases tasks.len() - done,
            {
                match queue::pop(&mut local.tasks) {
                    Some(task) => {
                        if let Some(waker) = state.schedule(task) {
                            wakes.push(waker);
                        }
                        proof {
                            assert(tasks.take(done + 1) =~= tasks.take(done).push(task));
                            assert(tasks.skip(done).drop_first() =~= tasks.skip(done + 1));
                            done = done + 1;
                        }
                    },
                    None => {
                        break;
                    },
                }
            }
            assert(tasks.take(done) =~= tasks);
        }
        if let Some(waker) = self.ticker.drop(state) {
            wakes.push(waker);
        }
        wakes
    }
}

} // verus!
