//! Wakers: a ticker that is taken off the list has its waker handed out.

use crate::laws::effects::{hands_out, others};
use crate::sleepers::SleepersView;
use vstd::prelude::*;

verus! {

/// A call, as far as it hands out wakers: whose it is, and what came of it.
pub struct Handover<W> {
    /// The identifier under which the ticker that calls sleeps, zero if it does not or if there is
    /// none.
    pub me: usize,
    /// The wakers that the call handed out.
    pub wakes: Seq<W>,
}

/// Whether each list in a sequence comes of the one before it by a call.
pub open spec fn is_sequence<W>(lists: Seq<SleepersView<W>>, calls: Seq<Handover<W>>) -> bool {
    &&& lists.len() == calls.len() + 1
    &&& forall|i: int|
        0 <= i < calls.len() ==> hands_out(
            lists[i],
            (#[trigger] calls[i]).me,
            calls[i].wakes,
            lists[i + 1],
        )
}

/// An entry of another ticker is one of the others.
proof fn lemma_others_contains<W>(wakers: Seq<(usize, W)>, me: usize, entry: (usize, W))
    ensures
        others(wakers, me).contains(entry) <==> wakers.contains(entry) && entry.0 != me,
    decreases wakers.len(),
{
    if wakers.len() > 0 {
        let rest = wakers.drop_last();
        lemma_others_contains(rest, me, entry);
        let all = others(wakers, me);
        if wakers.contains(entry) && entry.0 != me {
            let i = choose|i: int| 0 <= i < wakers.len() && wakers[i] == entry;
            if i < rest.len() {
                assert(rest[i] == entry);
                let j = choose|j: int| 0 <= j < others(rest, me).len() && others(rest, me)[j]
                    == entry;
                assert(all[j] == entry);
            } else {
                assert(all[all.len() - 1] == entry);
            }
        }
        if all.contains(entry) {
            let i = choose|i: int| 0 <= i < all.len() && all[i] == entry;
            if i < others(rest, me).len() {
                assert(others(rest, me)[i] == entry);
                assert(rest.contains(entry));
                let j = choose|j: int| 0 <= j < rest.len() && rest[j] == entry;
                assert(wakers[j] == entry);
            } else {
                assert(wakers[wakers.len() - 1] == entry);
            }
        }
    }
}

/// In one call, the waker of another ticker is handed out or stays listed.
pub proof fn law_listed_or_handed_out<W>(
    before: SleepersView<W>,
    me: usize,
    wakes: Seq<W>,
    after: SleepersView<W>,
    id: usize,
    waker: W,
)
    requires
        hands_out(before, me, wakes, after),
        before.wakers.contains((id, waker)),
        id != me,
    ensures
        after.wakers.contains((id, waker)) || wakes.contains(waker),
{
    lemma_others_contains(before.wakers, me, (id, waker));
    lemma_others_contains(after.wakers, me, (id, waker));
    let listed = others(before.wakers, me);
    let i = choose|i: int| 0 <= i < listed.len() && listed[i] == (id, waker);
    if i < wakes.len() {
        assert(wakes[i] == waker);
    } else {
        assert(others(after.wakers, me)[i - wakes.len()] == (id, waker));
    }
}

/// In one call, what is handed out is the waker of another ticker, which was listed and leaves the
/// list.
pub proof fn law_handed_out_was_listed<W>(
    before: SleepersView<W>,
    me: usize,
    wakes: Seq<W>,
    after: SleepersView<W>,
    i: int,
)
    requires
        hands_out(before, me, wakes, after),
        before.wf(),
        0 <= i < wakes.len(),
    ensures
        exists|id: usize|
            id != me && before.wakers.contains((id, wakes[i])) && !#[trigger] after.listed(id),
{
    let listed = others(before.wakers, me);
    let left = others(after.wakers, me);
    let entry = listed[i];
    let id = entry.0;
    lemma_others_contains(before.wakers, me, entry);
    assert(listed.contains(entry));
    assert(wakes[i] == listed[i].1);
    assert(entry == (id, wakes[i]));
    if after.listed(id) {
        let j = after.position(id);
        let other = after.wakers[j];
        assert(after.wakers.contains(other));
        lemma_others_contains(after.wakers, me, other);
        let k = choose|k: int| 0 <= k < left.len() && left[k] == other;
        assert(left[k] == listed[wakes.len() + k]);
        lemma_others_distinct(before, me, i, wakes.len() + k);
    }
}

/// The others are listed once each.
proof fn lemma_others_distinct<W>(sleepers: SleepersView<W>, me: usize, i: int, j: int)
    requires
        sleepers.wf(),
        0 <= i < j < others(sleepers.wakers, me).len(),
    ensures
        others(sleepers.wakers, me)[i].0 != others(sleepers.wakers, me)[j].0,
{
    lemma_others_distinct_in(sleepers.wakers, me, i, j);
}

/// The others are listed once each if all are.
proof fn lemma_others_distinct_in<W>(wakers: Seq<(usize, W)>, me: usize, i: int, j: int)
    requires
        forall|a: int, b: int|
            0 <= a < b < wakers.len() ==> (#[trigger] wakers[a]).0 != (#[trigger] wakers[b]).0,
        0 <= i < j < others(wakers, me).len(),
    ensures
        others(wakers, me)[i].0 != others(wakers, me)[j].0,
    decreases wakers.len(),
{
    let rest = wakers.drop_last();
    assert forall|a: int, b: int| 0 <= a < b < rest.len() implies (#[trigger] rest[a]).0 != (
    #[trigger] rest[b]).0 by {
        assert(rest[a] == wakers[a] && rest[b] == wakers[b]);
    }
    if j < others(rest, me).len() {
        lemma_others_distinct_in(rest, me, i, j);
    } else {
        let entry = others(rest, me)[i];
        assert(others(rest, me).contains(entry));
        lemma_others_contains(rest, me, entry);
        let a = choose|a: int| 0 <= a < rest.len() && rest[a] == entry;
        assert(wakers[a] == entry);
        assert(wakers[a].0 != wakers[wakers.len() - 1].0);
    }
}

/// Over any sequence of calls of others, the waker with which a ticker was listed is handed out by
/// one of them, if the ticker is not listed with it at the end.
pub proof fn law_unlisted_was_handed_out<W>(
    lists: Seq<SleepersView<W>>,
    calls: Seq<Handover<W>>,
    id: usize,
    waker: W,
)
    requires
        is_sequence(lists, calls),
        forall|i: int| 0 <= i < calls.len() ==> (#[trigger] calls[i]).me != id,
        lists[0].wakers.contains((id, waker)),
        !lists.last().wakers.contains((id, waker)),
    ensures
        exists|i: int|
            0 <= i < calls.len() && (#[trigger] calls[i]).wakes.contains(waker),
    decreases calls.len(),
{
    if calls.len() > 0 {
        let n = calls.len() - 1;
        let lists_before = lists.drop_last();
        let calls_before = calls.drop_last();
        assert(hands_out(lists[n], calls[n].me, calls[n].wakes, lists[n + 1]));
        if lists[n].wakers.contains((id, waker)) {
            law_listed_or_handed_out(
                lists[n],
                calls[n].me,
                calls[n].wakes,
                lists[n + 1],
                id,
                waker,
            );
        } else {
            assert forall|i: int| 0 <= i < calls_before.len() implies hands_out(
                lists_before[i],
                (#[trigger] calls_before[i]).me,
                calls_before[i].wakes,
                lists_before[i + 1],
            ) && calls_before[i].me != id by {
                assert(calls_before[i] == calls[i]);
            }
            law_unlisted_was_handed_out(lists_before, calls_before, id, waker);
            let i = choose|i: int|
                0 <= i < calls_before.len() && (#[trigger] calls_before[i]).wakes.contains(waker);
            assert(calls[i].wakes.contains(waker));
        }
    }
}

} // verus!
