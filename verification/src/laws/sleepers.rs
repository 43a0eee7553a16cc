//! The list of sleeping tickers after any sequence of calls.

use crate::laws::sleeping::{law_count, sleeping_ids};
use crate::sleepers::SleepersView;
use vstd::prelude::*;

verus! {

/// A call on a list of sleeping tickers.
pub enum Call<W> {
    /// A ticker is inserted with this waker.
    Insert(W),
    /// The ticker with this identifier is listed with this waker.
    Update(usize, W),
    /// The ticker with this identifier is removed.
    Remove(usize),
    /// A ticker is notified.
    Notify,
}

/// The list of a new executor.
pub open spec fn no_sleepers<W>() -> SleepersView<W> {
    SleepersView { count: 0, wakers: Seq::empty(), free_ids: Seq::empty() }
}

/// Whether a call may be made: only a sleeping ticker is updated or removed, and there are no
/// more tickers than can be counted.
pub open spec fn allowed<W>(sleepers: SleepersView<W>, call: Call<W>) -> bool {
    match call {
        Call::Insert(_) => sleepers.count < usize::MAX,
        Call::Update(id, _) => sleepers.asleep(id),
        Call::Remove(id) => sleepers.asleep(id),
        Call::Notify => true,
    }
}

/// The list after a call.
pub open spec fn called<W>(sleepers: SleepersView<W>, call: Call<W>) -> SleepersView<W> {
    match call {
        Call::Insert(waker) => sleepers.inserted(waker),
        Call::Update(id, waker) => sleepers.updated(id, waker),
        Call::Remove(id) => sleepers.removed(id),
        Call::Notify => sleepers.after_notify(),
    }
}

/// The list after a sequence of calls on a new one.
pub open spec fn after_calls<W>(calls: Seq<Call<W>>) -> SleepersView<W>
    decreases calls.len(),
{
    if calls.len() == 0 {
        no_sleepers()
    } else {
        called(after_calls(calls.drop_last()), calls.last())
    }
}

/// Whether each call of a sequence may be made at its turn.
pub open spec fn all_allowed<W>(calls: Seq<Call<W>>) -> bool
    decreases calls.len(),
{
    calls.len() > 0 ==> {
        &&& all_allowed(calls.drop_last())
        &&& allowed(after_calls(calls.drop_last()), calls.last())
    }
}

/// The identifiers that were handed out and whose tickers were not removed since.
pub open spec fn live<W>(calls: Seq<Call<W>>) -> Set<int>
    decreases calls.len(),
{
    if calls.len() == 0 {
        Set::empty()
    } else {
        let before = live(calls.drop_last());
        match calls.last() {
            Call::Insert(_) => before.insert(after_calls(calls.drop_last()).next_id() as int),
            Call::Update(_, _) => before,
            Call::Remove(id) => before.remove(id as int),
            Call::Notify => before,
        }
    }
}

/// The largest number of tickers that were ever asleep at once.
pub open spec fn peak<W>(calls: Seq<Call<W>>) -> nat
    decreases calls.len(),
{
    if calls.len() == 0 {
        0
    } else {
        let before = peak(calls.drop_last());
        let count = after_calls(calls).count;
        if count > before {
            count
        } else {
            before
        }
    }
}

/// After any sequence of calls, the list is well formed, the sleeping tickers are those that were
/// inserted and not removed since, and the identifiers in use or to be handed out again are as
/// many as tickers were ever asleep at once.
proof fn lemma_calls<W>(calls: Seq<Call<W>>)
    requires
        all_allowed(calls),
    ensures
        after_calls(calls).wf(),
        sleeping_ids(after_calls(calls)) == live(calls),
        after_calls(calls).count + after_calls(calls).free_ids.len() == peak(calls),
    decreases calls.len(),
{
    if calls.len() == 0 {
        assert(sleeping_ids(after_calls(calls)) =~= live(calls));
    } else {
        lemma_calls(calls.drop_last());
        let before = after_calls(calls.drop_last());
        let after = after_calls(calls);
        match calls.last() {
            Call::Insert(waker) => {
                before.lemma_inserted(waker);
                let id = before.next_id();
                assert(id != 0);
                assert(after.asleep(id));
                assert forall|other: int| #[trigger]
                    sleeping_ids(after).contains(other) <==> live(calls).contains(other) by {
                    if 0 < other <= usize::MAX && other as usize != id {
                        assert(after.asleep(other as usize) <==> before.asleep(other as usize));
                    }
                    assert(sleeping_ids(before).contains(other) <==> live(
                        calls.drop_last(),
                    ).contains(other));
                }
            },
            Call::Update(id, waker) => {
                before.lemma_updated(id, waker);
                assert forall|other: int| #[trigger]
                    sleeping_ids(after).contains(other) <==> sleeping_ids(before).contains(
                        other,
                    ) by {
                    assert(after.asleep(other as usize) <==> before.asleep(other as usize));
                }
            },
            Call::Remove(id) => {
                before.lemma_removed(id);
                assert(!after.asleep(id));
                assert forall|other: int| #[trigger]
                    sleeping_ids(after).contains(other) <==> live(calls).contains(other) by {
                    if 0 < other <= usize::MAX && other as usize != id {
                        assert(after.asleep(other as usize) <==> before.asleep(other as usize));
                    }
                    assert(sleeping_ids(before).contains(other) <==> live(
                        calls.drop_last(),
                    ).contains(other));
                }
            },
            Call::Notify => {
                before.lemma_after_notify();
                assert forall|other: int| #[trigger]
                    sleeping_ids(after).contains(other) <==> sleeping_ids(before).contains(
                        other,
                    ) by {
                    assert(after.asleep(other as usize) <==> before.asleep(other as usize));
                }
            },
        }
        assert(sleeping_ids(after) =~= live(calls));
    }
}

/// After any sequence of calls, the count is the number of tickers that were inserted and not
/// removed since; the list holds some of them, each once; their identifiers and those to be
/// handed out again are different ones, and together they are the numbers from one up to the
/// largest number of tickers that were ever asleep at once.
pub proof fn law_identifiers<W>(calls: Seq<Call<W>>)
    requires
        all_allowed(calls),
    ensures
        ({
            let sleepers = after_calls(calls);
            &&& sleepers.wf()
            &&& live(calls).finite()
            &&& live(calls).len() == sleepers.count
            &&& forall|i: int|
                0 <= i < sleepers.wakers.len() ==> live(calls).contains(
                    (#[trigger] sleepers.wakers[i]).0 as int,
                )
            &&& forall|i: int, j: int|
                0 <= i < j < sleepers.wakers.len() ==> (#[trigger] sleepers.wakers[i]).0
                    != (#[trigger] sleepers.wakers[j]).0
            &&& sleepers.free_ids.no_duplicates()
            &&& forall|i: int|
                0 <= i < sleepers.free_ids.len() ==> !live(calls).contains(
                    (#[trigger] sleepers.free_ids[i]) as int,
                )
            &&& sleepers.count + sleepers.free_ids.len() == peak(calls)
            &&& forall|id: usize|
                1 <= id <= peak(calls) <==> #[trigger] live(calls).contains(id as int)
                    || sleepers.free_ids.contains(id)
        }),
{
    let sleepers = after_calls(calls);
    lemma_calls(calls);
    law_count(sleepers);
    assert forall|id: usize| #[trigger] live(calls).contains(id as int) <==> id != 0
        && sleepers.asleep(id) by {
        assert(sleeping_ids(sleepers).contains(id as int) <==> live(calls).contains(id as int));
    }
    assert forall|i: int| 0 <= i < sleepers.wakers.len() implies live(calls).contains(
        (#[trigger] sleepers.wakers[i]).0 as int,
    ) by {
        assert(sleepers.asleep(sleepers.wakers[i].0));
    }
    assert forall|i: int| 0 <= i < sleepers.free_ids.len() implies !live(calls).contains(
        (#[trigger] sleepers.free_ids[i]) as int,
    ) by {
        assert(sleepers.free_ids.contains(sleepers.free_ids[i]));
    }
    assert forall|id: usize|
        1 <= id <= peak(calls) <==> #[trigger] live(calls).contains(id as int)
            || sleepers.free_ids.contains(id) by {
        if sleepers.free_ids.contains(id) {
            let i = choose|i: int| 0 <= i < sleepers.free_ids.len() && sleepers.free_ids[i] == id;
            assert(1 <= sleepers.free_ids[i]);
        }
    }
}

/// After any sequence of calls, the next ticker gets an identifier that is not zero and that no
/// sleeping ticker has.
pub proof fn law_next_identifier<W>(calls: Seq<Call<W>>)
    requires
        all_allowed(calls),
        after_calls(calls).count < usize::MAX,
    ensures
        after_calls(calls).next_id() != 0,
        !live(calls).contains(after_calls(calls).next_id() as int),
{
    let sleepers = after_calls(calls);
    lemma_calls(calls);
    if sleepers.free_ids.len() > 0 {
        assert(sleepers.free_ids.contains(sleepers.free_ids.last()));
    }
    assert(!sleepers.asleep(sleepers.next_id()));
    assert(!sleeping_ids(sleepers).contains(sleepers.next_id() as int));
}

} // verus!
