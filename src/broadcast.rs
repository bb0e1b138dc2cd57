//! The broadcaster: a registry of subscribers, each with a bounded queue of
//! outbound text messages.

use std::collections::VecDeque;
use vstd::prelude::*;

verus! {

/// The queue capacity used for each subscriber by the server.
pub const QUEUE_CAPACITY: usize = 32;

/// What a caller holds for one subscription: its identifier.
#[derive(Clone, Copy, Debug, PartialEq, Eq, Structural)]
pub struct SubscriptionHandle {
    pub id: u64,
}

/// Why a subscription could not be made.
#[derive(Clone, Copy, Debug, PartialEq, Eq, Structural)]
pub enum BroadcastError {
    /// No identifier is left for a new subscriber.
    ResourceExhausted,
}

/// The abstract state of one subscriber: its identifier, the messages queued
/// for it (oldest first), and whether its consumption side is still there.
pub struct SubscriberView {
    pub id: u64,
    pub queue: Seq<Seq<char>>,
    pub open: bool,
}

/// The subscriber after `m` was offered to it: when its queue is full the
/// oldest message is dropped to make room.
pub open spec fn deliver(s: SubscriberView, m: Seq<char>, cap: nat) -> SubscriberView {
    SubscriberView {
        id: s.id,
        queue: if s.queue.len() >= cap {
            s.queue.drop_first().push(m)
        } else {
            s.queue.push(m)
        },
        open: s.open,
    }
}

/// Publishing to the first `k` subscribers: the open ones receive `m`, the
/// closed ones are dropped.
pub open spec fn publish_prefix(
    subs: Seq<SubscriberView>,
    m: Seq<char>,
    cap: nat,
    k: nat,
) -> Seq<SubscriberView>
    decreases k,
{
    if k == 0 {
        seq![]
    } else {
        let before = publish_prefix(subs, m, cap, (k - 1) as nat);
        if subs[k - 1].open {
            before.push(deliver(subs[k - 1], m, cap))
        } else {
            before
        }
    }
}

/// The registry after publishing `m`.
pub open spec fn published(subs: Seq<SubscriberView>, m: Seq<char>, cap: nat) -> Seq<
    SubscriberView,
> {
    publish_prefix(subs, m, cap, subs.len())
}

/// The registry after a new subscriber `id` joined, with an empty queue.
pub open spec fn subscribed(subs: Seq<SubscriberView>, id: u64) -> Seq<SubscriberView> {
    subs.push(SubscriberView { id, queue: seq![], open: true })
}

/// Some subscriber of `subs` has identifier `id`.
pub open spec fn has_id(subs: Seq<SubscriberView>, id: u64) -> bool {
    exists|i: int| 0 <= i < subs.len() && (#[trigger] subs[i]).id == id
}

/// The registry without subscriber `id`.
pub open spec fn unsubscribed(subs: Seq<SubscriberView>, id: u64) -> Seq<SubscriberView> {
    if has_id(subs, id) {
        subs.remove(choose|i: int| 0 <= i < subs.len() && (#[trigger] subs[i]).id == id)
    } else {
        subs
    }
}

/// No two subscribers share an identifier.
pub open spec fn ids_unique(subs: Seq<SubscriberView>) -> bool {
    forall|i: int, j: int|
        0 <= i < subs.len() && 0 <= j < subs.len() && i != j ==> (#[trigger] subs[i]).id != (
        #[trigger] subs[j]).id
}

/// The registry is consistent: identifiers are unique and below `next`, and no
/// queue holds more than `cap` messages.
pub open spec fn registry_wf(subs: Seq<SubscriberView>, cap: nat, next: u64) -> bool {
    &&& cap > 0
    &&& ids_unique(subs)
    &&& forall|i: int|
        0 <= i < subs.len() ==> (#[trigger] subs[i]).id < next && subs[i].queue.len() <= cap
}

struct Subscriber {
    id: u64,
    queue: VecDeque<String>,
    open: bool,
}

impl Subscriber {
    spec fn view(&self) -> SubscriberView {
        SubscriberView { id: self.id, queue: self.queue@.map_values(|m: String| m@), open: self.open }
    }
}

/// The set of live subscribers and their outbound queues.
pub struct Broadcaster {
    subscribers: Vec<Subscriber>,
    next_id: u64,
    capacity: usize,
}

impl View for Broadcaster {
    type V = Seq<SubscriberView>;

    closed spec fn view(&self) -> Seq<SubscriberView> {
        views(self.subscribers@)
    }
}

/// `u` is what some open subscriber among the first `k` became after `m`
/// was delivered to it.
pub open spec fn delivered_from(
    subs: Seq<SubscriberView>,
    m: Seq<char>,
    cap: nat,
    k: nat,
    u: SubscriberView,
) -> bool {
    exists|i: int| 0 <= i < k && subs[i].open && u == deliver(#[trigger] subs[i], m, cap)
}

/// Some subscriber of `subs` is `u`.
pub open spec fn contains_view(subs: Seq<SubscriberView>, u: SubscriberView) -> bool {
    exists|j: int| 0 <= j < subs.len() && #[trigger] subs[j] == u
}

proof fn lemma_publish_prefix(subs: Seq<SubscriberView>, m: Seq<char>, cap: nat, k: nat)
    requires
        k <= subs.len(),
        ids_unique(subs),
    ensures
        ids_unique(publish_prefix(subs, m, cap, k)),
        forall|j: int|
            0 <= j < publish_prefix(subs, m, cap, k).len() ==> delivered_from(
                subs,
                m,
                cap,
                k,
                #[trigger] publish_prefix(subs, m, cap, k)[j],
            ),
        forall|i: int|
            0 <= i < k && (#[trigger] subs[i]).open ==> contains_view(
                publish_prefix(subs, m, cap, k),
                deliver(subs[i], m, cap),
            ),
    decreases k,
{
    if k > 0 {
        lemma_publish_prefix(subs, m, cap, (k - 1) as nat);
        let before = publish_prefix(subs, m, cap, (k - 1) as nat);
        let after = publish_prefix(subs, m, cap, k);
        let s = subs[k - 1];
        if s.open {
            assert(after == before.push(deliver(s, m, cap)));
            assert forall|j: int| 0 <= j < before.len() implies (#[trigger] after[j]).id != s.id by {
                assert(delivered_from(subs, m, cap, (k - 1) as nat, before[j]));
                let i = choose|i: int|
                    0 <= i < k - 1 && subs[i].open && before[j] == deliver(#[trigger] subs[i], m, cap);
                assert(subs[i].id != subs[k - 1].id);
                assert(after[j] == before[j]);
            }
            assert forall|j: int| 0 <= j < after.len() implies delivered_from(
                subs,
                m,
                cap,
                k,
                #[trigger] after[j],
            ) by {
                if j < before.len() {
                    assert(after[j] == before[j]);
                    assert(delivered_from(subs, m, cap, (k - 1) as nat, before[j]));
                } else {
                    assert(after[j] == deliver(subs[k - 1], m, cap));
                }
            }
            assert forall|i: int| 0 <= i < k && (#[trigger] subs[i]).open implies contains_view(
                after,
                deliver(subs[i], m, cap),
            ) by {
                if i < k - 1 {
                    assert(contains_view(before, deliver(subs[i], m, cap)));
                    let j = choose|j: int| 0 <= j < before.len() && #[trigger] before[j] == deliver(subs[i], m, cap);
                    assert(after[j] == before[j]);
                } else {
                    assert(after[after.len() - 1] == deliver(subs[i], m, cap));
                }
            }
        } else {
            assert(after == before);
            assert forall|j: int| 0 <= j < after.len() implies delivered_from(
                subs,
                m,
                cap,
                k,
                #[trigger] after[j],
            ) by {
                assert(delivered_from(subs, m, cap, (k - 1) as nat, before[j]));
            }
            assert forall|i: int| 0 <= i < k && (#[trigger] subs[i]).open implies contains_view(
                after,
                deliver(subs[i], m, cap),
            ) by {
                assert(contains_view(before, deliver(subs[i], m, cap)));
            }
        }
    }
}

/// Joining and then leaving restores the registry: `subscribe` adds exactly
/// one subscriber, and `unsubscribe` of its handle brings back the registry,
/// and so the count, that was there before.
pub proof fn lemma_subscribe_unsubscribe(subs: Seq<SubscriberView>, id: u64)
    requires
        !has_id(subs, id),
    ensures
        subscribed(subs, id).len() == subs.len() + 1,
        unsubscribed(subscribed(subs, id), id) == subs,
        unsubscribed(subscribed(subs, id), id).len() == subs.len(),
{
    let s2 = subscribed(subs, id);
    assert(s2[subs.len() as int].id == id);
    assert(has_id(s2, id));
    let c = choose|i: int| 0 <= i < s2.len() && (#[trigger] s2[i]).id == id;
    if c < subs.len() {
        assert(subs[c].id == id);
        assert(false);
    }
    assert(s2.remove(c) =~= subs);
}

/// Publishing `m` reaches every subscriber that is open at the call: `m` is
/// appended to its queue, which loses its oldest message only when it was
/// full. A subscriber that joins afterwards starts with an empty queue.
pub proof fn lemma_publish_delivers(
    subs: Seq<SubscriberView>,
    m: Seq<char>,
    cap: nat,
    i: int,
    later: u64,
)
    requires
        ids_unique(subs),
        0 <= i < subs.len(),
        subs[i].open,
    ensures
        exists|j: int|
            0 <= j < published(subs, m, cap).len() && (#[trigger] published(subs, m, cap)[j]).id
                == subs[i].id && published(subs, m, cap)[j].queue == if subs[i].queue.len() < cap {
                subs[i].queue.push(m)
            } else {
                subs[i].queue.drop_first().push(m)
            },
        subscribed(published(subs, m, cap), later).last().queue.len() == 0,
{
    lemma_publish_prefix(subs, m, cap, subs.len());
    assert(contains_view(published(subs, m, cap), deliver(subs[i], m, cap)));
}

/// A subscriber whose consumption side is gone, so that delivery to it
/// fails, is no longer in the registry after the next `publish`.
pub proof fn lemma_publish_drops_failed(subs: Seq<SubscriberView>, m: Seq<char>, cap: nat, i: int)
    requires
        ids_unique(subs),
        0 <= i < subs.len(),
        !subs[i].open,
    ensures
        !has_id(published(subs, m, cap), subs[i].id),
{
    let p = published(subs, m, cap);
    lemma_publish_prefix(subs, m, cap, subs.len());
    assert forall|j: int| 0 <= j < p.len() implies (#[trigger] p[j]).id != subs[i].id by {
        assert(delivered_from(subs, m, cap, subs.len(), p[j]));
        let i0 = choose|i0: int|
            0 <= i0 < subs.len() && subs[i0].open && p[j] == deliver(#[trigger] subs[i0], m, cap);
        assert(i0 != i);
    }
}

spec fn views(s: Seq<Subscriber>) -> Seq<SubscriberView> {
    s.map_values(|x: Subscriber| x.view())
}

proof fn lemma_views_remove(s: Seq<Subscriber>, i: int)
    requires
        0 <= i < s.len(),
    ensures
        views(s.remove(i)) == views(s).remove(i),
{
    assert(views(s.remove(i)) =~= views(s).remove(i));
}

proof fn lemma_views_update(s: Seq<Subscriber>, i: int, x: Subscriber)
    requires
        0 <= i < s.len(),
    ensures
        views(s.update(i, x)) == views(s).update(i, x.view()),
{
    assert(views(s.update(i, x)) =~= views(s).update(i, x.view()));
}

impl Broadcaster {
    /// The largest number of messages held for one subscriber.
    pub closed spec fn capacity_spec(&self) -> nat {
        self.capacity as nat
    }

    /// The identifier that the next subscriber will get.
    pub closed spec fn next_id_spec(&self) -> u64 {
        self.next_id
    }

    /// The broadcaster is consistent.
    pub open spec fn wf(&self) -> bool {
        registry_wf(self@, self.capacity_spec(), self.next_id_spec())
    }

    /// A broadcaster with no subscribers, whose queues hold at most `capacity`
    /// messages each.
    pub fn new(capacity: usize) -> (b: Broadcaster)
        requires
            capacity > 0,
        ensures
            b.wf(),
            b@.len() == 0,
            b.capacity_spec() == capacity,
            b.next_id_spec() == 0,
    {
        let b = Broadcaster { subscribers: Vec::new(), next_id: 0, capacity };
        assert(b@ =~= Seq::<SubscriberView>::empty());
        b
    }

    /// The number of live subscribers.
    pub fn live_count(&self) -> (n: usize)
        ensures
            n == self@.len(),
    {
        self.subscribers.len()
    }

    /// The largest number of messages held for one subscriber.
    pub fn capacity(&self) -> (n: usize)
        ensures
            n == self.capacity_spec(),
    {
        self.capacity
    }

    fn position_of(&self, id: u64) -> (r: Option<usize>)
        ensures
            match r {
                Some(i) => i < self@.len() && self@[i as int].id == id,
                None => !has_id(self@, id),
            },
    {
        let mut i: usize = 0;
        while i < self.subscribers.len()
            invariant
                0 <= i <= self@.len(),
                self@.len() == self.subscribers@.len(),
                forall|j: int| 0 <= j < i ==> (#[trigger] self@[j]).id != id,
            decreases self.subscribers.len() - i,
        {
            if self.subscribers[i].id == id {
                return Some(i);
            }
            i += 1;
        }
        None
    }

    /// Whether subscriber `h` is in the registry.
    pub fn is_live(&self, h: &SubscriptionHandle) -> (r: bool)
        ensures
            r == has_id(self@, h.id),
    {
        self.position_of(h.id).is_some()
    }

    /// The number of messages queued for `h`, if it is in the registry.
    pub fn pending(&self, h: &SubscriptionHandle) -> (r: Option<usize>)
        requires
            self.wf(),
        ensures
            match r {
                Some(n) => exists|i: int|
                    0 <= i < self@.len() && (#[trigger] self@[i]).id == h.id && self@[i].queue.len()
                        == n,
                None => !has_id(self@, h.id),
            },
    {
        match self.position_of(h.id) {
            Some(i) => Some(self.subscribers[i].queue.len()),
            None => None,
        }
    }

    /// Registers a new subscriber with an empty queue.
    pub fn subscribe(&mut self) -> (r: Result<SubscriptionHandle, BroadcastError>)
        requires
            old(self).wf(),
        ensures
            final(self).wf(),
            final(self).capacity_spec() == old(self).capacity_spec(),
            r is Ok <==> old(self).next_id_spec() < u64::MAX,
            r matches Ok(h) ==> h.id == old(self).next_id_spec() && final(self)@ == subscribed(
                old(self)@,
                h.id,
            ) && final(self).next_id_spec() == h.id + 1,
            r matches Err(e) ==> e == BroadcastError::ResourceExhausted && *final(self) == *old(
                self,
            ),
    {
        if self.next_id == u64::MAX {
            return Err(BroadcastError::ResourceExhausted);
        }
        let id = self.next_id;
        let s = Subscriber { id, queue: VecDeque::new(), open: true };
        proof {
            assert(s.view().queue =~= Seq::<Seq<char>>::empty());
        }
        self.subscribers.push(s);
        self.next_id = id + 1;
        proof {
            assert(self@ =~= subscribed(old(self)@, id));
        }
        Ok(SubscriptionHandle { id })
    }

    /// Removes subscriber `h`; nothing happens when it is already gone.
    pub fn unsubscribe(&mut self, h: &SubscriptionHandle)
        requires
            old(self).wf(),
        ensures
            final(self).wf(),
            final(self).capacity_spec() == old(self).capacity_spec(),
            final(self).next_id_spec() == old(self).next_id_spec(),
            final(self)@ == unsubscribed(old(self)@, h.id),
    {
        match self.position_of(h.id) {
            Some(i) => {
                let ghost subs = self@;
                proof {
                    let c = choose|j: int| 0 <= j < subs.len() && (#[trigger] subs[j]).id == h.id;
                    assert(c == i);
                }
                self.subscribers.remove(i);
                assert(self@ =~= subs.remove(i as int));
            },
            None => {},
        }
    }

    /// Records that the consumption side of `h` is gone: delivery to it fails
    /// from now on, and the next `publish` drops it.
    pub fn close(&mut self, h: &SubscriptionHandle)
        requires
            old(self).wf(),
        ensures
            final(self).wf(),
            final(self).capacity_spec() == old(self).capacity_spec(),
            final(self).next_id_spec() == old(self).next_id_spec(),
            final(self)@.len() == old(self)@.len(),
            forall|i: int|
                0 <= i < old(self)@.len() ==> #[trigger] final(self)@[i] == if old(self)@[i].id
                    == h.id {
                    SubscriberView { id: h.id, queue: old(self)@[i].queue, open: false }
                } else {
                    old(self)@[i]
                },
    {
        match self.position_of(h.id) {
            Some(i) => {
                let ghost subs = self@;
                let mut s = Subscriber { id: 0, queue: VecDeque::new(), open: false };
                self.subscribers.set_and_swap(i, &mut s);
                s.open = false;
                self.subscribers.set(i, s);
                proof {
                    assert forall|j: int| 0 <= j < subs.len() implies #[trigger] self@[j] == if subs[j].id
                        == h.id {
                        SubscriberView { id: h.id, queue: subs[j].queue, open: false }
                    } else {
                        subs[j]
                    } by {
                        if j != i {
                            assert(subs[j].id != subs[i as int].id);
                        }
                    }
                }
            },
            None => {},
        }
    }

    /// Offers `m` to every live subscriber, in registry order. A subscriber
    /// whose queue is full loses its oldest message; one whose consumption
    /// side is gone is removed instead.
    pub fn publish(&mut self, m: &str)
        requires
            old(self).wf(),
        ensures
            final(self).wf(),
            final(self).capacity_spec() == old(self).capacity_spec(),
            final(self).next_id_spec() == old(self).next_id_spec(),
            final(self)@ == published(old(self)@, m@, old(self).capacity_spec()),
    {
        let ghost subs = self@;
        let ghost cap = self.capacity_spec();
        let ghost mut k: int = 0;
        let mut i: usize = 0;
        while i < self.subscribers.len()
            invariant
                0 <= k <= subs.len(),
                cap == self.capacity as nat,
                cap > 0,
                ids_unique(subs),
                self.next_id == old(self).next_id,
                self@.len() == self.subscribers@.len(),
                self@ == publish_prefix(subs, m@, cap, k as nat) + subs.subrange(k, subs.len() as int),
                i == publish_prefix(subs, m@, cap, k as nat).len(),
            decreases self.subscribers.len() - i,
        {
            let ghost before = publish_prefix(subs, m@, cap, k as nat);
            let ghost pre = self.subscribers@;
            assert(self@[i as int] == subs[k]);
            if !self.subscribers[i].open {
                self.subscribers.remove(i);
                proof {
                    lemma_views_remove(pre, i as int);
                    assert(publish_prefix(subs, m@, cap, (k + 1) as nat) == before);
                    assert(self@ =~= before + subs.subrange(k + 1, subs.len() as int));
                }
            } else {
                let mut s = Subscriber { id: 0, queue: VecDeque::new(), open: false };
                self.subscribers.set_and_swap(i, &mut s);
                let ghost s0 = s.view();
                assert(s0 == subs[k]);
                if s.queue.len() >= self.capacity {
                    s.queue.pop_front();
                }
                s.queue.push_back(String::from_str(m));
                proof {
                    assert(s.view().queue =~= deliver(s0, m@, cap).queue);
                }
                self.subscribers.set(i, s);
                proof {
                    assert(self.subscribers@ =~= pre.update(i as int, s));
                    assert(s.view() == deliver(subs[k], m@, cap));
                    lemma_views_update(pre, i as int, s);
                    assert(publish_prefix(subs, m@, cap, (k + 1) as nat) == before.push(
                        deliver(subs[k], m@, cap),
                    ));
                    assert(self@ =~= before.push(deliver(subs[k], m@, cap)) + subs.subrange(
                        k + 1,
                        subs.len() as int,
                    ));
                }
                i += 1;
            }
            proof {
                k = k + 1;
            }
        }
        proof {
            assert(self@ =~= publish_prefix(subs, m@, cap, subs.len()));
            lemma_publish_prefix(subs, m@, cap, subs.len());
            let p = self@;
            assert forall|j: int| 0 <= j < p.len() implies (#[trigger] p[j]).id < self.next_id
                && p[j].queue.len() <= cap by {
                assert(delivered_from(subs, m@, cap, subs.len(), p[j]));
                let i0 = choose|i0: int|
                    0 <= i0 < subs.len() && subs[i0].open && p[j] == deliver(#[trigger] subs[i0], m@, cap);
                assert(subs[i0].id < self.next_id);
            }
        }
    }

    /// Takes the oldest message queued for `h`, if there is one.
    pub fn next_message(&mut self, h: &SubscriptionHandle) -> (r: Option<String>)
        requires
            old(self).wf(),
        ensures
            final(self).wf(),
            final(self).capacity_spec() == old(self).capacity_spec(),
            final(self).next_id_spec() == old(self).next_id_spec(),
            final(self)@.len() == old(self)@.len(),
            match r {
                Some(msg) => exists|i: int|
                    0 <= i < old(self)@.len() && (#[trigger] old(self)@[i]).id == h.id && old(
                        self,
                    )@[i].queue.len() > 0 && msg@ == old(self)@[i].queue[0] && final(self)@
                        == old(self)@.update(
                        i,
                        SubscriberView {
                            id: h.id,
                            queue: old(self)@[i].queue.drop_first(),
                            open: old(self)@[i].open,
                        },
                    ),
                None => *final(self) == *old(self) && forall|i: int|
                    0 <= i < old(self)@.len() && (#[trigger] old(self)@[i]).id == h.id
                        ==> old(self)@[i].queue.len() == 0,
            },
    {
        match self.position_of(h.id) {
            Some(i) => {
                if self.subscribers[i].queue.len() == 0 {
                    proof {
                        assert forall|j: int|
                            0 <= j < self@.len() && (#[trigger] self@[j]).id == h.id implies self@[j].queue.len()
                            == 0 by {
                            if j != i {
                                assert(self@[j].id != self@[i as int].id);
                            }
                        }
                    }
                    return None;
                }
                let ghost subs = self@;
                let mut s = Subscriber { id: 0, queue: VecDeque::new(), open: false };
                self.subscribers.set_and_swap(i, &mut s);
                let ghost s0 = s.view();
                let front = s.queue.pop_front();
                proof {
                    assert(s.view().queue =~= s0.queue.drop_first());
                }
                self.subscribers.set(i, s);
                proof {
                    assert(self@ =~= subs.update(
                        i as int,
                        SubscriberView { id: h.id, queue: subs[i as int].queue.drop_first(), open: subs[i as int].open },
                    ));
                }
                front
            },
            None => None,
        }
    }
}

} // verus!
