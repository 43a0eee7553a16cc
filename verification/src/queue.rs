//! Task queues and work stealing.
//!
//! A queue holds task numbers, oldest first. Queues are shared between threads, but every
//! function here holds its queues exclusively, so nothing happens to them between two steps.

use concurrent_queue::ConcurrentQueue;
use vstd::prelude::*;

verus! {

/// `concurrent_queue::ConcurrentQueue`, a first-in first-out queue with an optional capacity.
#[verifier::external_type_specification]
#[verifier::external_body]
#[verifier::reject_recursive_types(T)]
pub struct ExConcurrentQueue<T>(concurrent_queue::ConcurrentQueue<T>);

/// The tasks in a queue, oldest first.
pub uninterp spec fn queued(queue: ConcurrentQueue<u64>) -> Seq<u64>;

/// The capacity a queue was made with; `None` for an unbounded queue.
pub uninterp spec fn queue_capacity(queue: ConcurrentQueue<u64>) -> Option<usize>;

/// Whether a queue has been closed, so that it takes no more tasks.
pub uninterp spec fn queue_closed(queue: ConcurrentQueue<u64>) -> bool;

/// Whether one more task fits into a queue that holds `len` tasks.
pub open spec fn has_room(capacity: Option<usize>, len: nat) -> bool {
    match capacity {
        Some(cap) => len < cap,
        None => true,
    }
}

/// `ConcurrentQueue::unbounded`: an empty, open queue without a capacity.
#[verifier::external_body]
pub(crate) fn unbounded() -> (queue: ConcurrentQueue<u64>)
    ensures
        queued(queue) == Seq::<u64>::empty(),
        queue_capacity(queue) == None::<usize>,
        !queue_closed(queue),
{
    ConcurrentQueue::unbounded()
}

/// `ConcurrentQueue::bounded`: an empty, open queue that takes up to `cap` tasks.
///
/// The call panics on a capacity of zero, and where the stamps or the buffer of a huge queue do
/// not fit into the address space.
#[verifier::external_body]
pub(crate) fn bounded(cap: usize) -> (queue: ConcurrentQueue<u64>)
    requires
        0 < cap <= 0x1_0000,
    ensures
        queued(queue) == Seq::<u64>::empty(),
        queue_capacity(queue) == Some(cap),
        !queue_closed(queue),
{
    ConcurrentQueue::bounded(cap)
}

/// `ConcurrentQueue::push`: appends `task` if the queue is open and has room, and otherwise
/// leaves the queue as it is. Returns whether the task went in.
#[verifier::external_body]
pub(crate) fn push(queue: &mut ConcurrentQueue<u64>, task: u64) -> (pushed: bool)
    ensures
        pushed == (!queue_closed(*old(queue)) && has_room(
            queue_capacity(*old(queue)),
            queued(*old(queue)).len(),
        )),
        queued(*final(queue)) == if pushed {
            queued(*old(queue)).push(task)
        } else {
            queued(*old(queue))
        },
        queue_capacity(*final(queue)) == queue_capacity(*old(queue)),
        queue_closed(*final(queue)) == queue_closed(*old(queue)),
{
    queue.push(task).is_ok()
}

/// `ConcurrentQueue::pop`: takes the oldest task, or nothing if the queue is empty.
#[verifier::external_body]
pub(crate) fn pop(queue: &mut ConcurrentQueue<u64>) -> (task: Option<u64>)
    ensures
        task is None <==> queued(*old(queue)).len() == 0,
        task matches Some(oldest) ==> oldest == queued(*old(queue))[0],
        queued(*final(queue)) == if queued(*old(queue)).len() == 0 {
            queued(*old(queue))
        } else {
            queued(*old(queue)).drop_first()
        },
        queue_capacity(*final(queue)) == queue_capacity(*old(queue)),
        queue_closed(*final(queue)) == queue_closed(*old(queue)),
{
    queue.pop().ok()
}

/// `ConcurrentQueue::len`: the number of tasks in the queue, which never exceeds its capacity.
#[verifier::external_body]
pub(crate) fn len(queue: &ConcurrentQueue<u64>) -> (n: usize)
    ensures
        n == queued(*queue).len(),
        queue_capacity(*queue) matches Some(cap) ==> n <= cap,
{
    queue.len()
}

/// `ConcurrentQueue::capacity`: the capacity the queue was made with.
#[verifier::external_body]
pub(crate) fn capacity(queue: &ConcurrentQueue<u64>) -> (cap: Option<usize>)
    ensures
        cap == queue_capacity(*queue),
{
    queue.capacity()
}

/// How many tasks move from a queue of `src` tasks into one of `dest` tasks: half of the source,
/// rounded up, but no more than fit.
pub open spec fn steal_count(src: nat, dest: nat, capacity: Option<usize>) -> nat {
    let half = (src + 1) / 2;
    match capacity {
        Some(cap) => {
            let room = if dest < cap {
                (cap - dest) as nat
            } else {
                0
            };
            if room < half {
                room
            } else {
                half
            }
        },
        None => half,
    }
}

/// Steals some items from one queue into another.
///
/// Half of the tasks in `src`, rounded up, move to the back of `dest`, oldest first; fewer if
/// `dest` has not enough room. Tasks cannot be stolen into a closed queue.
pub fn steal(src: &mut ConcurrentQueue<u64>, dest: &mut ConcurrentQueue<u64>)
    requires
        !queue_closed(*old(dest)),
    ensures
        ({
            let from = queued(*old(src));
            let to = queued(*old(dest));
            let count = steal_count(from.len(), to.len(), queue_capacity(*old(dest)));
            &&& queued(*final(src)) == from.skip(count as int)
            &&& queued(*final(dest)) == to + from.take(count as int)
        }),
        queue_capacity(*final(src)) == queue_capacity(*old(src)),
        queue_closed(*final(src)) == queue_closed(*old(src)),
        queue_capacity(*final(dest)) == queue_capacity(*old(dest)),
        !queue_closed(*final(dest)),
{
    let ghost from = queued(*src);
    let ghost to = queued(*dest);

    // Half of `src`'s length rounded up.
    let available: usize = len(src);
    let mut count: usize = available / 2 + available % 2;

    if count > 0 {
        // Don't steal more than fits into the queue.
        if let Some(cap) = capacity(dest) {
            let room: usize = cap - len(dest);
            if room < count {
                count = room;
            }
        }
    }

    // Steal tasks.
    let mut moved: usize = 0;
    assert(from.skip(0) =~= from);
    assert(to + from.take(0) =~= to);
    while moved < count
        invariant
            moved <= count <= from.len(),
            count == steal_count(from.len(), to.len(), queue_capacity(*old(dest))),
            queued(*src) == from.skip(moved as int),
            queued(*dest) == to + from.take(moved as int),
            queue_capacity(*src) == queue_capacity(*old(src)),
            queue_closed(*src) == queue_closed(*old(src)),
            queue_capacity(*dest) == queue_capacity(*old(dest)),
            !queue_closed(*dest),
        decreases count - moved,
    {
        if let Some(task) = pop(src) {
            let pushed = push(dest, task);
            assert(pushed);
            assert(from.skip(moved as int).drop_first() =~= from.skip(moved + 1));
            assert(queued(*dest) =~= to + from.take(moved + 1));
        }
        moved = moved + 1;
    }
}

} // verus!
