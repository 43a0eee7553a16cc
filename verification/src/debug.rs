//! What an executor shows of itself for debugging.
//!
//! Parts of the state that another thread holds are not waited for: a placeholder is shown for
//! them.

use crate::executor::Executor;
use crate::queue;
use crate::state::{State, StateView};
use vstd::prelude::*;

verus! {

/// What came of trying to get at a part of the state.
pub enum TryLock<T> {
    /// The part.
    Acquired(T),
    /// Someone else holds the part.
    WouldBlock,
    /// The part, which someone held who panicked.
    Poisoned(T),
}

/// The parts of the state that are shown, as far as they can be got at.
pub struct StateParts {
    /// The number of active tasks.
    pub active: TryLock<usize>,
    /// The number of tasks in the global queue.
    pub global_tasks: usize,
    /// The number of tasks in each local queue.
    pub local_runners: TryLock<Vec<usize>>,
    /// The number of sleeping tickers.
    pub sleepers: TryLock<usize>,
}

/// A value to show.
pub enum Field {
    /// A number.
    Number(usize),
    /// A list of numbers.
    List(Vec<usize>),
    /// A placeholder, shown without quotes.
    Text(&'static str),
}

/// The fields of an initialized executor, in the order in which they are shown.
pub struct DebugState {
    /// The number of active tasks.
    pub active: Field,
    /// The number of tasks in the global queue.
    pub global_tasks: Field,
    /// The number of tasks in each local queue.
    pub local_runners: Field,
    /// The number of sleeping tickers.
    pub sleepers: Field,
}

/// What an executor shows behind its name.
pub enum DebugExecutor {
    /// A single unnamed field.
    Uninitialized(Field),
    /// Named fields.
    State(DebugState),
}

/// Whether `field` shows the number of active tasks. The number is shown even if the table of
/// active tasks is poisoned.
pub open spec fn shows_active(active: TryLock<usize>, field: Field) -> bool {
    match active {
        TryLock::Acquired(n) | TryLock::Poisoned(n) => field == Field::Number(n),
        TryLock::WouldBlock => field matches Field::Text(text) && text@ == "<locked>"@,
    }
}

/// Whether `field` shows the lengths of the local queues.
pub open spec fn shows_local_runners(local_runners: TryLock<Vec<usize>>, field: Field) -> bool {
    match local_runners {
        TryLock::Acquired(lens) => field matches Field::List(shown) && shown@ == lens@,
        TryLock::WouldBlock => field matches Field::Text(text) && text@ == "<locked>"@,
        TryLock::Poisoned(_) => field matches Field::Text(text) && text@ == "<poisoned>"@,
    }
}

/// Whether `field` shows the number of sleeping tickers.
pub open spec fn shows_sleepers(sleepers: TryLock<usize>, field: Field) -> bool {
    match sleepers {
        TryLock::Acquired(n) => field == Field::Number(n),
        TryLock::WouldBlock => field matches Field::Text(text) && text@ == "<locked>"@,
        TryLock::Poisoned(_) => field matches Field::Text(text) && text@ == "<poisoned>"@,
    }
}

/// Whether `shown` shows the state with the given parts.
pub open spec fn shows_state(parts: StateParts, shown: DebugState) -> bool {
    &&& shows_active(parts.active, shown.active)
    &&& shown.global_tasks == Field::Number(parts.global_tasks)
    &&& shows_local_runners(parts.local_runners, shown.local_runners)
    &&& shows_sleepers(parts.sleepers, shown.sleepers)
}

/// Shows the state of an executor.
pub fn debug_state(parts: StateParts) -> (shown: DebugState)
    ensures
        shows_state(parts, shown),
{
    // The number of active tasks.
    let active = match parts.active {
        TryLock::Acquired(n) => Field::Number(n),
        TryLock::WouldBlock => Field::Text("<locked>"),
        TryLock::Poisoned(n) => Field::Number(n),
    };

    // The local runners.
    let local_runners = match parts.local_runners {
        TryLock::Acquired(lens) => Field::List(lens),
        TryLock::WouldBlock => Field::Text("<locked>"),
        TryLock::Poisoned(_) => Field::Text("<poisoned>"),
    };

    // The sleepers.
    let sleepers = match parts.sleepers {
        TryLock::Acquired(n) => Field::Number(n),
        TryLock::WouldBlock => Field::Text("<locked>"),
        TryLock::Poisoned(_) => Field::Text("<poisoned>"),
    };

    DebugState { active, global_tasks: Field::Number(parts.global_tasks), local_runners, sleepers }
}

/// Shows an executor, of which there are no parts as long as it has not been initialized.
pub fn debug_executor(parts: Option<StateParts>) -> (shown: DebugExecutor)
    ensures
        match parts {
            Some(parts) => shown matches DebugExecutor::State(state) && shows_state(parts, state),
            None => shown matches DebugExecutor::Uninitialized(Field::Text(text)) && text@
                == "<uninitialized>"@,
        },
{
    match parts {
        None => {
            // The executor has not been initialized.
            DebugExecutor::Uninitialized(Field::Text("<uninitialized>"))
        },
        Some(parts) => DebugExecutor::State(debug_state(parts)),
    }
}

impl<W> StateView<W> {
    /// The number of tasks in each local queue.
    pub open spec fn local_lens(self) -> Seq<nat> {
        self.local_queues.map_values(|local: (usize, Seq<u64>)| local.1.len())
    }
}

impl<W> State<W> {
    /// The number of active tasks.
    pub fn active_tasks(&self) -> (n: usize)
        ensures
            n == self@.active.tasks().len(),
    {
        self.active.len()
    }

    /// The number of tasks in the global queue.
    pub fn global_tasks(&self) -> (n: usize)
        ensures
            n == self@.queue.len(),
    {
        queue::len(&self.queue)
    }

    /// The number of tasks in each local queue.
    pub fn local_runners(&self) -> (lens: Vec<usize>)
        ensures
            lens@.map_values(|n: usize| n as nat) == self@.local_lens(),
    {
        let mut lens: Vec<usize> = Vec::new();
        let mut i: usize = 0;
        while i < self.local_queues.len()
            invariant
                i <= self.local_queues.len(),
                lens@.len() == i,
                forall|j: int|
                    0 <= j < i ==> (#[trigger] lens@[j]) as nat == self@.local_lens()[j],
            decreases self.local_queues.len() - i,
        {
            assert(self@.local_queues[i as int] == self.local_queues@[i as int]@);
            lens.push(queue::len(&self.local_queues[i].tasks));
            i = i + 1;
        }
        assert(lens@.map_values(|n: usize| n as nat) =~= self@.local_lens());
        lens
    }
}

impl<W> Executor<W> {
    /// The parts of the state that are shown, unless the executor has not been initialized.
    ///
    /// Whoever calls this has the executor for itself, so every part can be got at.
    pub fn parts(&self) -> (parts: Option<StateParts>)
        ensures
            parts is Some <==> self@ is Some,
            self@ matches Some(state) ==> {
                let parts = parts->0;
                &&& parts.active matches TryLock::Acquired(n) && n == state.active.tasks().len()
                &&& parts.global_tasks == state.queue.len()
                &&& parts.local_runners matches TryLock::Acquired(lens) && lens@.map_values(
                    |n: usize| n as nat,
                ) == state.local_lens()
                &&& parts.sleepers matches TryLock::Acquired(n) && n == state.sleepers.count
            },
    {
        match &self.state {
            None => None,
            Some(state) => Some(
                StateParts {
                    active: TryLock::Acquired(state.active_tasks()),
                    global_tasks: state.global_tasks(),
                    local_runners: TryLock::Acquired(state.local_runners()),
                    sleepers: TryLock::Acquired(state.sleeping()),
                },
            ),
        }
    }
}

} // verus!
