//! Work stealing.

use crate::queue::{has_room, steal_count};
use crate::runner::{lemma_victim, next_ticks, runner_valid, RunnerView, STEAL_INTERVAL};
use crate::state::{StateView, LOCAL_QUEUE_CAPACITY};
use vstd::prelude::*;

verus! {

/// Stealing keeps tasks in their order, takes some if there are any and there is room, leaves at
/// least half of them rounded down, and does not overfill a queue.
pub proof fn law_steal(from: Seq<u64>, to: Seq<u64>, capacity: Option<usize>)
    requires
        capacity matches Some(cap) ==> to.len() <= cap,
    ensures
        ({
            let count = steal_count(from.len(), to.len(), capacity) as int;
            &&& (to + from.take(count)) + from.skip(count) == to + from
            &&& count > 0 <==> from.len() > 0 && has_room(capacity, to.len())
            &&& from.skip(count).len() >= from.len() / 2
            &&& capacity matches Some(cap) ==> (to + from.take(count)).len() <= cap
        }),
{
    let count = steal_count(from.len(), to.len(), capacity) as int;
    assert((to + from.take(count)) + from.skip(count) =~= to + from);
}

/// A search by the runner at position `own` leaves the other runners where they are, in their
/// order, and takes at most half of their tasks rounded up, the oldest ones.
pub proof fn law_search_leaves_others<W>(state: StateView<W>, own: int, start: int, other: int)
    requires
        state.wf(),
        0 <= own < state.local_queues.len(),
        0 <= start < state.local_queues.len(),
        0 <= other < state.local_queues.len(),
        other != own,
    ensures
        ({
            let after = state.searched(own, start);
            let tasks = state.local_queues[other].1;
            let left = after.local_queues[other].1;
            &&& after.local_queues.len() == state.local_queues.len()
            &&& after.local_queues[other].0 == state.local_queues[other].0
            &&& left == tasks.skip(tasks.len() - left.len())
            &&& tasks.len() / 2 <= left.len() <= tasks.len()
        }),
{
    lemma_victim(state.local_queues, own, start, 0);
    let tasks = state.local_queues[other].1;
    assert(tasks.skip(0) =~= tasks);
}

/// Each time a runner has found [`STEAL_INTERVAL`] more tasks, the tasks in the global queue get
/// their turn, however many it has of its own: the oldest of them is lined up behind its own
/// tasks, if there is room.
pub proof fn law_global_tasks_get_their_turn<W>(state: StateView<W>, runner: RunnerView, start: int)
    requires
        runner_valid(runner, state),
        0 <= start < state.local_queues.len(),
        next_ticks(runner.ticks) % STEAL_INTERVAL == 0,
    ensures
        ({
            let own = state.runner_position(runner.id);
            let searched = state.searched(own, start);
            let own_tasks = searched.local_queues[own].1;
            let after = state.served(runner, start).local_queues[own].1;
            searched.queue.len() > 0 && own_tasks.len() < LOCAL_QUEUE_CAPACITY ==> {
                &&& after.len() > own_tasks.len()
                &&& after.take(own_tasks.len() as int) == own_tasks
                &&& after[own_tasks.len() as int] == searched.queue[0]
            }
        }),
{
    let own = state.runner_position(runner.id);
    assert(0 <= own < state.local_queues.len());
    state.lemma_search(own, start);
    let searched = state.searched(own, start);
    let own_tasks = searched.local_queues[own].1;
    let after = state.served(runner, start).local_queues[own].1;
    if searched.queue.len() > 0 && own_tasks.len() < LOCAL_QUEUE_CAPACITY {
        assert(after.take(own_tasks.len() as int) =~= own_tasks);
    }
}

/// Dropping a runner unregisters it. The other runners stay registered, with their tasks.
pub proof fn law_drop_leaves_others<W>(state: StateView<W>, runner: RunnerView)
    requires
        state.wf(),
        runner_valid(runner, state),
    ensures
        ({
            let after = state.runner_dropped(runner);
            &&& !after.has_runner(runner.id)
            &&& forall|other: usize|
                state.has_runner(other) && other != runner.id ==> #[trigger] after.has_runner(other)
                    && after.local_queues[after.runner_position(other)]
                    == state.local_queues[state.runner_position(other)]
        }),
{
    let own = state.runner_position(runner.id);
    let after = state.runner_dropped(runner);
    assert(0 <= own < state.local_queues.len() && state.local_queues[own].0 == runner.id);
    assert(after.local_queues =~= state.local_queues.remove(own));
    assert forall|k: int| 0 <= k < after.local_queues.len() implies (
    #[trigger] after.local_queues[k]).0 != runner.id by {
        let m = if k < own {
            k
        } else {
            k + 1
        };
        assert(after.local_queues[k] == state.local_queues[m]);
    }
    assert forall|other: usize|
        state.has_runner(other) && other != runner.id implies #[trigger] after.has_runner(other)
        && after.local_queues[after.runner_position(other)]
        == state.local_queues[state.runner_position(other)] by {
        let i = state.runner_position(other);
        assert(0 <= i < state.local_queues.len() && state.local_queues[i].0 == other);
        let j = if i < own {
            i
        } else {
            i - 1
        };
        assert(after.local_queues[j] == state.local_queues[i]);
        assert forall|k: int| 0 <= k < after.local_queues.len() && k != j implies (
        #[trigger] after.local_queues[k]).0 != other by {
            let m = if k < own {
                k
            } else {
                k + 1
            };
            assert(after.local_queues[k] == state.local_queues[m]);
        }
    }
}

} // verus!
