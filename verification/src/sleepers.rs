//! The list of sleeping tickers.

use vstd::prelude::*;
use vstd::seq_lib::*;
use vstd::set_lib::*;

verus! {

/// What a list of sleeping tickers holds.
#[verifier::ext_equal]
pub struct SleepersView<W> {
    /// The number of sleeping tickers, notified or not.
    pub count: nat,
    /// The identifiers and wakers of the sleeping tickers that have not been notified.
    pub wakers: Seq<(usize, W)>,
    /// The identifiers that were in use and can be handed out again, the next one last.
    pub free_ids: Seq<usize>,
}

impl<W> SleepersView<W> {
    /// Whether `id` belongs to a sleeping ticker: it was handed out and not given back.
    pub open spec fn asleep(self, id: usize) -> bool {
        1 <= id <= self.count + self.free_ids.len() && !self.free_ids.contains(id)
    }

    /// Whether the waker of the ticker `id` is listed; it is missing once the ticker is notified.
    pub open spec fn listed(self, id: usize) -> bool {
        exists|i: int| 0 <= i < self.wakers.len() && (#[trigger] self.wakers[i]).0 == id
    }

    /// The position of the ticker `id` in the list of wakers.
    pub open spec fn position(self, id: usize) -> int {
        choose|i: int| 0 <= i < self.wakers.len() && (#[trigger] self.wakers[i]).0 == id
    }

    /// The waker listed for the ticker `id`.
    pub open spec fn waker_of(self, id: usize) -> W {
        self.wakers[self.position(id)].1
    }

    /// Identifiers are handed out once at a time, only sleeping tickers have a waker listed, and
    /// all of them have but one at most.
    pub open spec fn wf(self) -> bool {
        &&& self.count <= self.wakers.len() + 1
        &&& self.count + self.free_ids.len() <= usize::MAX
        &&& self.free_ids.no_duplicates()
        &&& forall|i: int|
            0 <= i < self.free_ids.len() ==> 1 <= #[trigger] self.free_ids[i] <= self.count
                + self.free_ids.len()
        &&& forall|i: int|
            0 <= i < self.wakers.len() ==> self.asleep((#[trigger] self.wakers[i]).0)
        &&& forall|i: int, j: int|
            0 <= i < j < self.wakers.len() ==> (#[trigger] self.wakers[i]).0
                != (#[trigger] self.wakers[j]).0
    }

    /// The identifier the next ticker to fall asleep gets.
    pub open spec fn next_id(self) -> usize {
        if self.free_ids.len() == 0 {
            (self.count + 1) as usize
        } else {
            self.free_ids.last()
        }
    }

    /// A new ticker falls asleep with `waker`.
    pub open spec fn inserted(self, waker: W) -> Self {
        SleepersView {
            count: self.count + 1,
            wakers: self.wakers.push((self.next_id(), waker)),
            free_ids: if self.free_ids.len() == 0 {
                self.free_ids
            } else {
                self.free_ids.drop_last()
            },
        }
    }

    /// The sleeping ticker `id` is listed with `waker`.
    pub open spec fn updated(self, id: usize, waker: W) -> Self {
        SleepersView {
            count: self.count,
            wakers: if self.listed(id) {
                self.wakers.update(self.position(id), (id, waker))
            } else {
                self.wakers.push((id, waker))
            },
            free_ids: self.free_ids,
        }
    }

    /// The ticker `id` no longer sleeps.
    pub open spec fn removed(self, id: usize) -> Self {
        SleepersView {
            count: (self.count - 1) as nat,
            wakers: if self.listed(id) {
                self.wakers.remove(self.position(id))
            } else {
                self.wakers
            },
            free_ids: self.free_ids.push(id),
        }
    }

    /// Whether a sleeping ticker is notified or no tickers are sleeping.
    pub open spec fn is_notified(self) -> bool {
        self.count == 0 || self.count > self.wakers.len()
    }

    /// The waker that a notification takes out of the list: the one at its head, unless a ticker
    /// has been notified already or none is sleeping.
    pub open spec fn notification(self) -> Option<W> {
        if self.wakers.len() == self.count && self.count > 0 {
            Some(self.wakers[0].1)
        } else {
            None
        }
    }

    /// The list after a notification.
    pub open spec fn after_notify(self) -> Self {
        SleepersView {
            count: self.count,
            wakers: if self.notification() is Some {
                self.wakers.drop_first()
            } else {
                self.wakers
            },
            free_ids: self.free_ids,
        }
    }
}

/// Distinct numbers between one and `n` are at most `n` many.
proof fn lemma_distinct_within(ids: Seq<usize>, n: nat)
    requires
        ids.no_duplicates(),
        forall|i: int| 0 <= i < ids.len() ==> 1 <= #[trigger] ids[i] <= n,
    ensures
        ids.len() <= n,
{
    let wide = Seq::new(ids.len(), |i: int| ids[i] as int);
    wide.unique_seq_to_set();
    lemma_int_range(1, n as int + 1);
    lemma_len_subset(wide.to_set(), set_int_range(1, n as int + 1));
}

impl<W> SleepersView<W> {
    /// No more tickers are asleep than are counted.
    pub proof fn lemma_asleep_at_most_count(self, ids: Seq<usize>)
        requires
            self.wf(),
            ids.no_duplicates(),
            forall|i: int| 0 <= i < ids.len() ==> self.asleep(#[trigger] ids[i]),
        ensures
            ids.len() <= self.count,
    {
        assert forall|i: int, j: int|
            0 <= i < ids.len() && 0 <= j < self.free_ids.len() implies ids[i]
            != self.free_ids[j] by {
            assert(self.asleep(ids[i]));
        }
        lemma_no_dup_in_concat(ids, self.free_ids);
        lemma_distinct_within(ids + self.free_ids, self.count + self.free_ids.len());
    }

    /// No more wakers are listed than tickers are asleep; fewer, if some ticker is notified.
    pub proof fn lemma_listed_at_most_count(self)
        requires
            self.wf(),
        ensures
            self.wakers.len() <= self.count,
            forall|id: usize| #[trigger]
                self.asleep(id) ==> self.count > 0 && (!self.listed(id) ==> self.wakers.len()
                    < self.count),
    {
        let ids = Seq::new(self.wakers.len(), |i: int| self.wakers[i].0);
        self.lemma_asleep_at_most_count(ids);
        assert forall|id: usize| #[trigger] self.asleep(id) implies self.count > 0 && (
        !self.listed(id) ==> self.wakers.len() < self.count) by {
            self.lemma_asleep_at_most_count(seq![id]);
            if !self.listed(id) {
                self.lemma_asleep_at_most_count(ids.push(id));
            }
        }
    }

    /// Inserting a ticker gives it an identifier that no sleeping ticker has, and lists it last.
    pub proof fn lemma_inserted(self, waker: W)
        requires
            self.wf(),
            self.count < usize::MAX,
        ensures
            self.inserted(waker).wf(),
            self.next_id() != 0,
            !self.asleep(self.next_id()),
            self.inserted(waker).asleep(self.next_id()),
            self.inserted(waker).listed(self.next_id()),
            self.inserted(waker).position(self.next_id()) == self.wakers.len(),
            self.inserted(waker).waker_of(self.next_id()) == waker,
            forall|id: usize|
                id != self.next_id() ==> (#[trigger] self.inserted(waker).asleep(id)
                    <==> self.asleep(id)),
    {
        let id = self.next_id();
        let after = self.inserted(waker);
        self.lemma_listed_at_most_count();
        if self.free_ids.len() > 0 {
            assert(self.free_ids.contains(self.free_ids.last()));
            assert forall|i: int| 0 <= i < after.free_ids.len() implies after.free_ids[i]
                == self.free_ids[i] by {}
            assert forall|other: usize| other != id implies (#[trigger] after.asleep(other)
                <==> self.asleep(other)) by {
                if self.free_ids.contains(other) {
                    let i = choose|i: int|
                        0 <= i < self.free_ids.len() && self.free_ids[i] == other;
                    assert(after.free_ids[i] == other);
                }
            }
        }
        assert(after.asleep(id));
        assert forall|i: int| 0 <= i < after.wakers.len() implies after.asleep(
            (#[trigger] after.wakers[i]).0,
        ) by {
            if i < self.wakers.len() {
                assert(self.asleep(self.wakers[i].0));
            }
        }
        assert forall|i: int| 0 <= i < self.wakers.len() implies (#[trigger] after.wakers[i]).0
            != id by {
            assert(self.asleep(self.wakers[i].0));
        }
        assert(after.wf());
        after.lemma_position(self.wakers.len() as int);
    }

    /// Listing a sleeping ticker again lists it once.
    pub proof fn lemma_updated(self, id: usize, waker: W)
        requires
            self.wf(),
            self.asleep(id),
        ensures
            self.updated(id, waker).wf(),
            self.updated(id, waker).listed(id),
            self.updated(id, waker).waker_of(id) == waker,
            forall|other: usize|
                #[trigger] self.updated(id, waker).asleep(other) <==> self.asleep(other),
    {
        let after = self.updated(id, waker);
        self.lemma_listed_at_most_count();
        assert forall|i: int| 0 <= i < after.wakers.len() implies after.asleep(
            (#[trigger] after.wakers[i]).0,
        ) by {
            if i < self.wakers.len() {
                assert(self.asleep(self.wakers[i].0));
            }
        }
        if self.listed(id) {
            let i = self.position(id);
            assert(self.wakers[i].0 == id);
            assert(after.wf());
            after.lemma_position(i);
        } else {
            assert(after.wf());
            after.lemma_position(self.wakers.len() as int);
        }
    }

    /// Removing a sleeping ticker gives its identifier back.
    pub proof fn lemma_removed(self, id: usize)
        requires
            self.wf(),
            self.asleep(id),
        ensures
            self.removed(id).wf(),
            self.count > 0,
            !self.removed(id).asleep(id),
            forall|other: usize|
                other != id ==> (#[trigger] self.removed(id).asleep(other) <==> self.asleep(
                    other,
                )),
    {
        let after = self.removed(id);
        self.lemma_listed_at_most_count();
        assert(after.free_ids[self.free_ids.len() as int] == id);
        assert forall|other: usize| other != id implies (#[trigger] after.asleep(other)
            <==> self.asleep(other)) by {
            if self.free_ids.contains(other) {
                let i = choose|i: int| 0 <= i < self.free_ids.len() && self.free_ids[i] == other;
                assert(after.free_ids[i] == other);
            }
            if after.free_ids.contains(other) {
                let i = choose|i: int| 0 <= i < after.free_ids.len() && after.free_ids[i] == other;
                assert(self.free_ids[i] == other);
            }
        }
        let at = self.position(id);
        assert(self.listed(id) ==> self.wakers[at].0 == id);
        assert forall|i: int| 0 <= i < after.wakers.len() implies after.asleep(
            (#[trigger] after.wakers[i]).0,
        ) by {
            let j = if self.listed(id) && i >= at {
                i + 1
            } else {
                i
            };
            assert(after.wakers[i] == self.wakers[j]);
            assert(self.asleep(self.wakers[j].0));
        }
    }

    /// A notification takes out the waker at the head of the list and leaves the others in their
    /// order. Every ticker goes on sleeping.
    pub proof fn lemma_after_notify(self)
        requires
            self.wf(),
        ensures
            self.after_notify().wf(),
            forall|id: usize| #[trigger] self.after_notify().asleep(id) <==> self.asleep(id),
            self.notification() is Some ==> {
                &&& self.wakers.len() > 0
                &&& self.listed(self.wakers[0].0)
                &&& self.notification() == Some(self.waker_of(self.wakers[0].0))
                &&& !self.after_notify().listed(self.wakers[0].0)
            },
    {
        let after = self.after_notify();
        if self.notification() is Some {
            self.lemma_position(0);
            assert forall|i: int| 0 <= i < after.wakers.len() implies after.asleep(
                (#[trigger] after.wakers[i]).0,
            ) && after.wakers[i].0 != self.wakers[0].0 by {
                assert(after.wakers[i] == self.wakers[i + 1]);
                assert(self.asleep(self.wakers[i + 1].0));
            }
        }
    }

    /// A ticker is listed in one place only.
    pub proof fn lemma_position(self, i: int)
        requires
            self.wf(),
            0 <= i < self.wakers.len(),
        ensures
            self.listed(self.wakers[i].0),
            self.position(self.wakers[i].0) == i,
            self.waker_of(self.wakers[i].0) == self.wakers[i].1,
    {
    }
}

/// A list of sleeping tickers, with wakers of type `W`.
pub struct Sleepers<W> {
    /// Number of sleeping tickers (both notified and unnotified).
    count: usize,
    /// IDs and wakers of sleeping unnotified tickers.
    ///
    /// A sleeping ticker is notified when its waker is missing from this list.
    wakers: Vec<(usize, W)>,
    /// Reclaimed IDs.
    free_ids: Vec<usize>,
}

impl<W> View for Sleepers<W> {
    type V = SleepersView<W>;

    closed spec fn view(&self) -> SleepersView<W> {
        SleepersView {
            count: self.count as nat,
            wakers: self.wakers@,
            free_ids: self.free_ids@,
        }
    }
}

impl<W> Sleepers<W> {
    /// A list without sleeping tickers.
    pub fn new() -> (sleepers: Sleepers<W>)
        ensures
            sleepers@ == (SleepersView::<W> {
                count: 0,
                wakers: Seq::empty(),
                free_ids: Seq::empty(),
            }),
            sleepers@.wf(),
    {
        Sleepers { count: 0, wakers: Vec::new(), free_ids: Vec::new() }
    }

    /// The number of sleeping tickers, notified or not.
    pub fn count(&self) -> (count: usize)
        ensures
            count == self@.count,
    {
        self.count
    }

    /// Returns `true` if a sleeping ticker is notified or no tickers are sleeping.
    pub fn is_notified(&self) -> (notified: bool)
        ensures
            notified == self@.is_notified(),
    {
        self.count == 0 || self.count > self.wakers.len()
    }

    /// Returns notification waker for a sleeping ticker: the one that was listed first.
    ///
    /// If a ticker was notified already or there are no tickers, `None` will be returned.
    pub fn notify(&mut self) -> (waker: Option<W>)
        requires
            old(self)@.wf(),
        ensures
            waker == old(self)@.notification(),
            final(self)@ == old(self)@.after_notify(),
            final(self)@.wf(),
    {
        proof {
            self@.lemma_after_notify();
        }
        if self.wakers.len() == self.count && self.count > 0 {
            Some(self.wakers.remove(0).1)
        } else {
            None
        }
    }

    /// Removes a previously inserted sleeping ticker.
    ///
    /// Returns `true` if the ticker was notified.
    pub fn remove(&mut self, id: usize) -> (notified: bool)
        requires
            old(self)@.wf(),
            old(self)@.asleep(id),
        ensures
            notified == !old(self)@.listed(id),
            final(self)@ == old(self)@.removed(id),
            final(self)@.wf(),
    {
        proof {
            self@.lemma_removed(id);
        }
        self.count = self.count - 1;
        self.free_ids.push(id);
        let mut i: usize = self.wakers.len();
        while i > 0
            invariant
                i <= self.wakers.len(),
                self.wakers@ == old(self)@.wakers,
                self.count == old(self)@.count - 1,
                self.free_ids@ == old(self)@.free_ids.push(id),
                old(self)@.wf(),
                old(self)@.removed(id).wf(),
                forall|j: int| i <= j < self.wakers.len() ==> (#[trigger] self.wakers@[j]).0 != id,
            decreases i,
        {
            i = i - 1;
            if self.wakers[i].0 == id {
                self.wakers.remove(i);
                proof {
                    old(self)@.lemma_position(i as int);
                }
                return false;
            }
        }
        true
    }
}

impl<W: Clone> Sleepers<W> {
    /// Inserts a new sleeping ticker and returns its identifier, which is never zero.
    pub fn insert(&mut self, waker: &W) -> (id: usize)
        requires
            old(self)@.wf(),
            old(self)@.count < usize::MAX,
        ensures
            id == old(self)@.next_id(),
            cloned(*waker, final(self)@.wakers.last().1),
            final(self)@ == old(self)@.inserted(final(self)@.wakers.last().1),
            final(self)@.wf(),
            !old(self)@.asleep(id),
            id != 0,
    {
        proof {
            if self.free_ids.len() > 0 {
                assert(self.free_ids@.contains(self.free_ids@.last()));
            }
        }
        let id: usize = match self.free_ids.pop() {
            Some(id) => id,
            None => self.count + 1,
        };
        self.count = self.count + 1;
        self.wakers.push((id, waker.clone()));
        id
    }

    /// Re-inserts a sleeping ticker's waker if it was notified.
    ///
    /// Returns `true` if the ticker was notified.
    pub fn update(&mut self, id: usize, waker: &W) -> (notified: bool)
        requires
            old(self)@.wf(),
            old(self)@.asleep(id),
        ensures
            notified == !old(self)@.listed(id),
            final(self)@.listed(id),
            cloned(*waker, final(self)@.waker_of(id)),
            final(self)@ == old(self)@.updated(id, final(self)@.waker_of(id)),
            final(self)@.wf(),
    {
        let mut i: usize = 0;
        while i < self.wakers.len()
            invariant
                i <= self.wakers.len(),
                self@ == old(self)@,
                old(self)@.wf(),
                old(self)@.asleep(id),
                forall|j: int| 0 <= j < i ==> (#[trigger] self.wakers@[j]).0 != id,
            decreases self.wakers.len() - i,
        {
            if self.wakers[i].0 == id {
                self.wakers.set(i, (id, waker.clone()));
                proof {
                    old(self)@.lemma_position(i as int);
                    old(self)@.lemma_updated(id, self@.wakers[i as int].1);
                    assert(self@ =~= old(self)@.updated(id, self@.wakers[i as int].1));
                }
                return false;
            }
            i = i + 1;
        }
        self.wakers.push((id, waker.clone()));
        proof {
            old(self)@.lemma_updated(id, self@.wakers.last().1);
            assert(self@ =~= old(self)@.updated(id, self@.wakers.last().1));
        }
        true
    }
}

} // verus!
