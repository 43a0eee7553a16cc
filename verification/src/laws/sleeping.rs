//! Sleeping tickers.

use crate::sleepers::SleepersView;
use crate::state::StateView;
use crate::ticker::ticker_valid;
use vstd::prelude::*;
use vstd::set_lib::*;

verus! {

/// The identifiers of the sleeping tickers.
pub open spec fn sleeping_ids<W>(sleepers: SleepersView<W>) -> Set<int> {
    Set::new(|id: int| 0 < id <= usize::MAX && sleepers.asleep(id as usize))
}

/// The count is the number of sleeping tickers, notified or not.
pub proof fn law_count<W>(sleepers: SleepersView<W>)
    requires
        sleepers.wf(),
    ensures
        sleeping_ids(sleepers).finite(),
        sleeping_ids(sleepers).len() == sleepers.count,
{
    let n = (sleepers.count + sleepers.free_ids.len()) as int;
    let all = set_int_range(1, n + 1);
    let free = Seq::new(sleepers.free_ids.len(), |i: int| sleepers.free_ids[i] as int);
    lemma_int_range(1, n + 1);
    free.unique_seq_to_set();
    assert(sleeping_ids(sleepers) =~= all.difference(free.to_set())) by {
        assert forall|id: int| #[trigger] sleeping_ids(sleepers).contains(id) implies all.difference(
            free.to_set(),
        ).contains(id) by {
            if free.contains(id) {
                let i = choose|i: int| 0 <= i < free.len() && free[i] == id;
                assert(sleepers.free_ids[i] == id as usize);
            }
        }
        assert forall|id: int| #[trigger]
            all.difference(free.to_set()).contains(id) implies sleeping_ids(sleepers).contains(
            id,
        ) by {
            if sleepers.free_ids.contains(id as usize) {
                let i = choose|i: int|
                    0 <= i < sleepers.free_ids.len() && sleepers.free_ids[i] == id as usize;
                assert(free[i] == id);
            }
        }
    }
    assert(all.intersect(free.to_set()) =~= free.to_set());
    lemma_set_difference_len(all, free.to_set());
}

/// A sleeping ticker is notified exactly if its waker is missing from the list, and at most one
/// is notified at a time. The flag says whether one is, or none is sleeping.
pub proof fn law_notified<W>(state: StateView<W>)
    requires
        state.wf(),
    ensures
        state.notified <==> state.sleepers.count == 0 || exists|id: usize| #[trigger]
            state.sleepers.asleep(id) && !state.sleepers.listed(id),
        forall|a: usize, b: usize|
            #![trigger state.sleepers.asleep(a), state.sleepers.asleep(b)]
            {
                &&& state.sleepers.asleep(a)
                &&& state.sleepers.asleep(b)
                &&& !state.sleepers.listed(a)
                &&& !state.sleepers.listed(b)
            } ==> a == b,
{
    let sleepers = state.sleepers;
    let ids = Seq::new(sleepers.wakers.len(), |i: int| sleepers.wakers[i].0);
    sleepers.lemma_listed_at_most_count();
    if sleepers.count > sleepers.wakers.len() {
        law_count(sleepers);
        let listed = Seq::new(sleepers.wakers.len(), |i: int| sleepers.wakers[i].0 as int);
        listed.unique_seq_to_set();
        assert(exists|id: int| #[trigger]
            sleeping_ids(sleepers).contains(id) && !listed.to_set().contains(id)) by {
            if forall|id: int| #[trigger]
                sleeping_ids(sleepers).contains(id) ==> listed.to_set().contains(id) {
                lemma_len_subset(sleeping_ids(sleepers), listed.to_set());
            }
        }
        let id = choose|id: int| #[trigger]
            sleeping_ids(sleepers).contains(id) && !listed.to_set().contains(id);
        assert(sleepers.asleep(id as usize));
        if sleepers.listed(id as usize) {
            let i = sleepers.position(id as usize);
            assert(listed[i] == id);
        }
    }
    assert forall|a: usize, b: usize|
        #![trigger sleepers.asleep(a), sleepers.asleep(b)]
        {
            &&& sleepers.asleep(a)
            &&& sleepers.asleep(b)
            &&& !sleepers.listed(a)
            &&& !sleepers.listed(b)
        } implies a == b by {
        if a != b {
            assert(ids.push(a).push(b).no_duplicates()) by {
                assert forall|i: int, j: int|
                    0 <= i < ids.len() + 2 && 0 <= j < ids.len() + 2 && i != j implies ids.push(
                    a,
                ).push(b)[i] != ids.push(a).push(b)[j] by {
                    assert(i < ids.len() ==> ids[i] == sleepers.wakers[i].0);
                    assert(j < ids.len() ==> ids[j] == sleepers.wakers[j].0);
                }
            }
            sleepers.lemma_asleep_at_most_count(ids.push(a).push(b));
        }
    }
}

/// A second notification in a row hands out nothing and changes nothing.
pub proof fn law_notify_twice<W>(state: StateView<W>)
    ensures
        state.after_notify().notification() is None,
        state.after_notify().after_notify() == state.after_notify(),
{
}

/// A notification hands out the waker of the ticker at the head of the list, which sleeps, and
/// that ticker is notified from then on.
pub proof fn law_notify_wakes_a_sleeper<W>(state: StateView<W>)
    requires
        state.wf(),
        state.notification() is Some,
    ensures
        ({
            let id = state.sleepers.wakers[0].0;
            &&& state.sleepers.asleep(id)
            &&& !state.ticker_notified(id)
            &&& state.notification() == Some(state.sleepers.waker_of(id))
            &&& state.after_notify().sleepers.asleep(id)
            &&& state.after_notify().ticker_notified(id)
        }),
{
    state.sleepers.lemma_after_notify();
    assert(state.sleepers.asleep(state.sleepers.wakers[0].0));
}

/// Falling asleep and waking up again leaves the same tickers sleeping, with the same wakers
/// listed, and the identifier is handed out again next.
pub proof fn law_sleep_then_wake<W>(state: StateView<W>, waker: W)
    requires
        state.wf(),
        state.sleepers.count < usize::MAX,
    ensures
        ({
            let after = state.slept(0, waker).woken(state.slept_id(0));
            &&& after.sleepers.count == state.sleepers.count
            &&& after.sleepers.wakers == state.sleepers.wakers
            &&& after.sleepers.next_id() == state.sleepers.next_id()
            &&& forall|id: usize| #[trigger]
                after.sleepers.asleep(id) <==> state.sleepers.asleep(id)
            &&& after == (StateView { sleepers: after.sleepers, ..state })
        }),
{
    let before = state.sleepers;
    let id = before.next_id();
    let slept = before.inserted(waker);
    let after = slept.removed(id);
    if before.free_ids.len() > 0 {
        assert(before.free_ids.contains(before.free_ids.last()));
    }
    assert(!before.asleep(id));
    assert(slept.wakers[slept.wakers.len() - 1].0 == id);
    assert forall|i: int| 0 <= i < before.wakers.len() implies slept.wakers[i].0 != id by {
        assert(before.asleep(before.wakers[i].0));
    }
    assert(slept.position(id) == slept.wakers.len() - 1);
    assert(after.wakers =~= before.wakers);
    if before.free_ids.len() > 0 {
        assert(after.free_ids =~= before.free_ids);
    } else {
        assert(after.free_ids =~= seq![id]);
        assert(after.free_ids[0] == id);
    }
}

/// What one ticker does leaves the other sleeping tickers as they are: they sleep under their
/// identifiers, which the ticker does not get, and with their wakers.
pub proof fn law_others_stay_asleep<W>(state: StateView<W>, sleeping: usize, waker: W, other: usize)
    requires
        state.wf(),
        ticker_valid(sleeping, state),
        state.sleepers.asleep(other),
        other != sleeping,
    ensures
        (sleeping == 0 ==> state.sleepers.count < usize::MAX) ==> {
            let slept = state.slept(sleeping, waker).sleepers;
            &&& state.slept_id(sleeping) != other
            &&& slept.asleep(other)
            &&& slept.listed(other) <==> state.sleepers.listed(other)
            &&& state.sleepers.listed(other) ==> slept.waker_of(other) == state.sleepers.waker_of(
                other,
            )
        },
        state.woken(sleeping).sleepers.asleep(other),
        state.woken(sleeping).sleepers.listed(other) <==> state.sleepers.listed(other),
        state.sleepers.listed(other) ==> state.woken(sleeping).sleepers.waker_of(other)
            == state.sleepers.waker_of(other),
        state.found(sleeping).sleepers.asleep(other),
        state.ticker_dropped(sleeping).sleepers.asleep(other),
{
    let before = state.sleepers;
    if before.free_ids.len() > 0 {
        assert(before.free_ids.contains(before.free_ids.last()));
    }
    let slept = state.slept(sleeping, waker).sleepers;
    let woken = state.woken(sleeping).sleepers;
    if sleeping == 0 {
        let id = before.next_id();
        assert(slept.free_ids.len() <= before.free_ids.len());
        assert forall|i: int| 0 <= i < slept.free_ids.len() implies before.free_ids.contains(
            #[trigger] slept.free_ids[i],
        ) by {
            assert(before.free_ids[i] == slept.free_ids[i]);
        }
    } else {
        assert forall|i: int| 0 <= i < woken.free_ids.len() implies woken.free_ids[i] != other by {
            if i < before.free_ids.len() {
                assert(before.free_ids[i] == woken.free_ids[i]);
            }
        }
    }
    if before.listed(other) {
        let i = before.position(other);
        assert(before.wakers[i].0 == other);
        assert(slept.wakers[i].0 == other);
        if sleeping != 0 && before.listed(sleeping) {
            let j = before.position(sleeping);
            assert(before.wakers[j].0 == sleeping);
            let k = if i < j {
                i
            } else {
                i - 1
            };
            assert(woken.wakers[k] == before.wakers[i]);
        }
    }
    if (sleeping == 0 ==> before.count < usize::MAX) && slept.listed(other) {
        let i = slept.position(other);
        assert(slept.wakers[i].0 == other);
        assert(i < before.wakers.len());
        assert(before.wakers[i].0 == other);
    }
    if woken.listed(other) {
        let i = woken.position(other);
        assert(woken.wakers[i].0 == other);
        if sleeping != 0 && before.listed(sleeping) {
            let j = before.position(sleeping);
            let k = if i < j {
                i
            } else {
                i + 1
            };
            assert(before.wakers[k] == woken.wakers[i]);
        }
    }
}

/// Removing a ticker right after it was inserted undoes it: it was not notified, the count and
/// the list are as they were, and its identifier is handed out next.
pub proof fn law_insert_then_remove<W>(sleepers: SleepersView<W>, waker: W)
    requires
        sleepers.wf(),
        sleepers.count < usize::MAX,
    ensures
        ({
            let id = sleepers.next_id();
            let inserted = sleepers.inserted(waker);
            let after = inserted.removed(id);
            &&& inserted.listed(id)
            &&& after.count == sleepers.count
            &&& after.wakers == sleepers.wakers
            &&& after.next_id() == id
        }),
{
    let id = sleepers.next_id();
    let inserted = sleepers.inserted(waker);
    sleepers.lemma_inserted(waker);
    assert(inserted.removed(id).wakers =~= sleepers.wakers);
}

/// A ticker whose waker a notification took is found notified when it is removed: it sleeps, and
/// is not listed until it lists itself again.
pub proof fn law_notify_then_remove<W>(sleepers: SleepersView<W>, id: usize)
    requires
        sleepers.wf(),
        sleepers.notification() is Some,
        sleepers.wakers[0].0 == id,
    ensures
        sleepers.after_notify().asleep(id),
        !sleepers.after_notify().listed(id),
        sleepers.after_notify().removed(id).wakers == sleepers.wakers.drop_first(),
        sleepers.after_notify().removed(id).count == sleepers.count - 1,
{
    sleepers.lemma_after_notify();
    assert(sleepers.asleep(sleepers.wakers[0].0));
}

} // verus!
