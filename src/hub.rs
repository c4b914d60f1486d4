//! The notification hub: one process-wide fan-out bus. Every subscriber sees
//! each event published after it subscribed, in publish order, through a
//! sliding window of bounded size; a subscriber that falls further behind
//! than the window is dropped and told so.

use vstd::prelude::*;
use crate::events::Event;

verus! {

/// Handle of one subscription.
#[derive(Debug, Clone, Copy, PartialEq, Eq, Structural)]
pub struct Subscription {
    pub id: u64,
}

/// What a subscriber gets when it asks for its next event.
#[derive(Debug)]
pub enum Delivery {
    /// The next event in publish order.
    Event(Event),
    /// Nothing has been published since the last delivery.
    Empty,
    /// More events were published than the window holds: the subscription
    /// has been dropped, and events were lost to it.
    Lagged,
    /// No live subscription has this handle.
    Closed,
}

struct Subscriber {
    id: u64,
    /// Events published that this subscriber has not taken yet; one more than
    /// the capacity marks a subscriber that fell behind.
    pending: usize,
}

/// The abstract state of a hub.
pub ghost struct HubView {
    /// Every event ever published, oldest first.
    pub history: Seq<Event>,
    /// How many events a subscriber may fall behind before it is dropped.
    pub capacity: nat,
    /// For each live subscription, how many events wait for it (one more
    /// than the capacity once it has fallen behind).
    pub pending: Map<u64, nat>,
    /// The id that the next subscription gets.
    pub next_id: u64,
}

impl HubView {
    pub open spec fn publish(self, e: Event) -> HubView {
        HubView {
            history: self.history.push(e),
            pending: self.pending.map_values(
                |p: nat| if p <= self.capacity { (p + 1) as nat } else { p },
            ),
            ..self
        }
    }

    /// The hub after publishing `es` in order.
    pub open spec fn publish_all(self, es: Seq<Event>) -> HubView
        decreases es.len(),
    {
        if es.len() == 0 {
            self
        } else {
            self.publish_all(es.drop_last()).publish(es.last())
        }
    }

    pub open spec fn subscribe(self) -> HubView {
        HubView { pending: self.pending.insert(self.next_id, 0), next_id: (self.next_id + 1) as u64, ..self }
    }

    pub open spec fn is_subscribed(self, id: u64) -> bool {
        self.pending.contains_key(id)
    }

    /// The subscriber fell behind by more than the window.
    pub open spec fn lagged(self, id: u64) -> bool {
        self.pending[id] > self.capacity
    }

    /// The events that wait for subscriber `id`, oldest first.
    pub open spec fn backlog(self, id: u64) -> Seq<Event> {
        self.history.subrange(self.history.len() - self.pending[id], self.history.len() as int)
    }
}

spec fn ids_unique(s: Seq<Subscriber>) -> bool {
    forall|i: int, j: int| 0 <= i < j < s.len() ==> s[i].id != s[j].id
}

spec fn holds_id(s: Seq<Subscriber>, id: u64) -> bool {
    exists|i: int| 0 <= i < s.len() && s[i].id == id
}

spec fn pending_map(s: Seq<Subscriber>) -> Map<u64, nat> {
    Map::new(
        |id: u64| holds_id(s, id),
        |id: u64| s[choose|i: int| 0 <= i < s.len() && s[i].id == id].pending as nat,
    )
}

proof fn lemma_pending_map_at(s: Seq<Subscriber>, i: int)
    requires
        ids_unique(s),
        0 <= i < s.len(),
    ensures
        pending_map(s).contains_key(s[i].id),
        pending_map(s)[s[i].id] == s[i].pending as nat,
{
    let id = s[i].id;
    assert(holds_id(s, id));
    let k = choose|k: int| 0 <= k < s.len() && s[k].id == id;
    if k < i {
        assert(s[k].id != s[i].id);
    } else if i < k {
        assert(s[i].id != s[k].id);
    }
}

/// What publishing a run of events does: the history grows by exactly those
/// events, and every subscriber's count of waiting events grows with it until
/// it passes the window.
pub proof fn lemma_publish_all(h: HubView, es: Seq<Event>, id: u64)
    requires
        h.pending.contains_key(id),
        h.pending[id] <= h.capacity + 1,
    ensures
        h.publish_all(es).history == h.history + es,
        h.publish_all(es).capacity == h.capacity,
        h.publish_all(es).next_id == h.next_id,
        h.publish_all(es).pending.dom() == h.pending.dom(),
        h.publish_all(es).pending[id] == if h.pending[id] + es.len() <= h.capacity + 1 {
            h.pending[id] + es.len()
        } else {
            h.capacity + 1
        },
    decreases es.len(),
{
    if es.len() == 0 {
        assert(h.history + es =~= h.history);
    } else {
        lemma_publish_all(h, es.drop_last(), id);
        let mid = h.publish_all(es.drop_last());
        assert(mid.history.push(es.last()) =~= h.history + es);
        assert(mid.publish(es.last()).pending.dom() =~= mid.pending.dom());
    }
}

/// A subscriber that joins before events are published finds exactly those
/// events waiting for it, in publish order, as long as they fit in the
/// window; when more were published, it is marked as fallen behind, so the
/// gap cannot go unnoticed.
pub proof fn lemma_subscriber_sees_later_events(h: HubView, es: Seq<Event>)
    requires
        h.next_id < u64::MAX,
    ensures
        ({
            let id = h.next_id;
            let after = h.subscribe().publish_all(es);
            &&& after.is_subscribed(id)
            &&& es.len() <= h.capacity ==> !after.lagged(id) && after.backlog(id) == es
            &&& es.len() > h.capacity ==> after.lagged(id)
        }),
{
    let id = h.next_id;
    let h1 = h.subscribe();
    lemma_publish_all(h1, es, id);
    let after = h1.publish_all(es);
    if es.len() <= h.capacity {
        assert(after.backlog(id) =~= es);
    }
}

/// A subscriber that joins after events were published finds none of them
/// waiting: there is no replay.
pub proof fn lemma_late_subscriber_sees_none(h: HubView, es: Seq<Event>)
    requires
        h.publish_all(es).next_id < u64::MAX,
    ensures
        ({
            let before = h.publish_all(es);
            let after = before.subscribe();
            &&& after.is_subscribed(before.next_id)
            &&& after.backlog(before.next_id) == Seq::<Event>::empty()
        }),
{
    let before = h.publish_all(es);
    assert(before.subscribe().backlog(before.next_id) =~= Seq::<Event>::empty());
}

/// The fan-out bus.
pub struct Hub {
    capacity: usize,
    window: Vec<Event>,
    subscribers: Vec<Subscriber>,
    next_id: u64,
    history: Ghost<Seq<Event>>,
}

impl View for Hub {
    type V = HubView;

    closed spec fn view(&self) -> HubView {
        HubView {
            history: self.history@,
            capacity: self.capacity as nat,
            pending: pending_map(self.subscribers@),
            next_id: self.next_id,
        }
    }
}

impl Hub {
    pub closed spec fn wf(&self) -> bool {
        &&& 0 < self.capacity < usize::MAX
        &&& self.window@.len() <= self.capacity
        &&& self.window@.len() <= self.history@.len()
        &&& (self.window@.len() == self.capacity || self.window@.len() == self.history@.len())
        &&& self.window@ == self.history@.subrange(
            self.history@.len() - self.window@.len(),
            self.history@.len() as int,
        )
        &&& ids_unique(self.subscribers@)
        &&& forall|i: int|
            0 <= i < self.subscribers@.len() ==> {
                let s = #[trigger] self.subscribers@[i];
                &&& s.id < self.next_id
                &&& s.pending <= self.capacity + 1
                &&& s.pending <= self.capacity ==> s.pending <= self.window@.len()
            }
    }

    /// A hub whose subscribers may each fall `capacity` events behind.
    pub fn new(capacity: usize) -> (r: Hub)
        requires
            0 < capacity < usize::MAX,
        ensures
            r.wf(),
            r@.history == Seq::<Event>::empty(),
            r@.capacity == capacity,
            r@.pending == Map::<u64, nat>::empty(),
            r@.next_id == 0,
    {
        let r = Hub {
            capacity,
            window: Vec::new(),
            subscribers: Vec::new(),
            next_id: 0,
            history: Ghost(Seq::empty()),
        };
        assert(r@.pending =~= Map::<u64, nat>::empty());
        assert(r.window@ =~= r.history@.subrange(0, 0));
        r
    }

    fn find(&self, id: u64) -> (r: Option<usize>)
        requires
            self.wf(),
        ensures
            r is Some ==> r.unwrap() < self.subscribers@.len() && self.subscribers@[r.unwrap() as int].id == id,
            r is None ==> !holds_id(self.subscribers@, id),
    {
        let mut i: usize = 0;
        while i < self.subscribers.len()
            invariant
                i <= self.subscribers@.len(),
                forall|k: int| 0 <= k < i ==> self.subscribers@[k].id != id,
            decreases self.subscribers@.len() - i,
        {
            if self.subscribers[i].id == id {
                return Some(i);
            }
            i += 1;
        }
        None
    }

    /// Sends `e` to every live subscriber. Never blocks and never fails: a
    /// subscriber that falls too far behind is marked, not waited for.
    pub fn publish(&mut self, e: Event)
        requires
            old(self).wf(),
        ensures
            final(self).wf(),
            final(self)@ == old(self)@.publish(e),
    {
        let ghost ge = e;
        let ghost old_hist = self.history@;
        let ghost old_win = self.window@;
        if self.window.len() == self.capacity {
            self.window.remove(0);
        }
        self.window.push(e);
        self.history = Ghost(self.history@.push(ge));
        assert(self.window@ =~= self.history@.subrange(
            self.history@.len() - self.window@.len(),
            self.history@.len() as int,
        ));
        let ghost old_subs = self.subscribers@;
        let ghost new_win = self.window@;
        let ghost new_hist = self.history@;
        let cap = self.capacity;
        let mut i: usize = 0;
        while i < self.subscribers.len()
            invariant
                cap == self.capacity,
                self.window@ == new_win,
                self.history@ == new_hist,
                self.next_id == old(self).next_id,
                old_subs == old(self).subscribers@,
                0 < cap < usize::MAX,
                i <= self.subscribers@.len(),
                self.subscribers@.len() == old_subs.len(),
                ids_unique(old_subs),
                forall|k: int| 0 <= k < old_subs.len() ==> #[trigger] self.subscribers@[k].id == old_subs[k].id,
                forall|k: int|
                    0 <= k < i ==> #[trigger] self.subscribers@[k].pending == if old_subs[k].pending <= cap {
                        old_subs[k].pending + 1
                    } else {
                        old_subs[k].pending as int
                    },
                forall|k: int| i <= k < old_subs.len() ==> #[trigger] self.subscribers@[k].pending == old_subs[k].pending,
                forall|k: int| 0 <= k < old_subs.len() ==> #[trigger] old_subs[k].pending <= cap + 1,
            decreases old_subs.len() - i,
        {
            let p = self.subscribers[i].pending;
            if p <= cap {
                let id = self.subscribers[i].id;
                self.subscribers.set(i, Subscriber { id, pending: p + 1 });
            }
            i += 1;
        }
        proof {
            let news = self.subscribers@;
            assert(ids_unique(news)) by {
                assert forall|a: int, b: int| 0 <= a < b < news.len() implies news[a].id != news[b].id by {
                    assert(news[a].id == old_subs[a].id);
                    assert(news[b].id == old_subs[b].id);
                }
            }
            let m = old(self)@.publish(ge);
            assert forall|id: u64| #[trigger] pending_map(news).contains_key(id) <==> m.pending.contains_key(id) by {
                if pending_map(news).contains_key(id) {
                    let k = choose|k: int| 0 <= k < news.len() && news[k].id == id;
                    assert(old_subs[k].id == id);
                    assert(holds_id(old_subs, id));
                }
                if m.pending.contains_key(id) {
                    let k = choose|k: int| 0 <= k < old_subs.len() && old_subs[k].id == id;
                    assert(news[k].id == id);
                    assert(holds_id(news, id));
                }
            }
            assert forall|id: u64| #[trigger] pending_map(news).contains_key(id) implies pending_map(news)[id] == m.pending[id] by {
                let k = choose|k: int| 0 <= k < news.len() && news[k].id == id;
                assert(old_subs[k].id == id);
                lemma_pending_map_at(news, k);
                lemma_pending_map_at(old_subs, k);
            }
            assert(pending_map(news) =~= m.pending);
            assert forall|k: int| 0 <= k < news.len() implies {
                let s = #[trigger] news[k];
                &&& s.id < self.next_id
                &&& s.pending <= self.capacity + 1
                &&& s.pending <= self.capacity ==> s.pending <= self.window@.len()
            } by {
                assert(news[k].id == old_subs[k].id);
                assert(old(self).subscribers@[k] == old_subs[k]);
                let p = old_subs[k].pending;
                assert(p <= cap ==> p <= old_win.len());
            }
        }
    }

    /// Opens a subscription that sees every event published from now on.
    /// Gives `None` only once every subscription id has been handed out.
    pub fn subscribe(&mut self) -> (r: Option<Subscription>)
        requires
            old(self).wf(),
        ensures
            final(self).wf(),
            r is None <==> old(self)@.next_id == u64::MAX,
            r is None ==> final(self)@ == old(self)@,
            r is Some ==> r.unwrap().id == old(self)@.next_id && final(self)@ == old(self)@.subscribe(),
    {
        if self.next_id == u64::MAX {
            return None;
        }
        let id = self.next_id;
        let ghost old_subs = self.subscribers@;
        self.subscribers.push(Subscriber { id, pending: 0 });
        self.next_id = id + 1;
        proof {
            let news = self.subscribers@;
            let m = old(self)@.subscribe();
            assert(!holds_id(old_subs, id));
            assert forall|id2: u64| #[trigger] pending_map(news).contains_key(id2) <==> m.pending.contains_key(id2) by {
                if pending_map(news).contains_key(id2) && id2 != id {
                    let k = choose|k: int| 0 <= k < news.len() && news[k].id == id2;
                    assert(old_subs[k].id == id2);
                }
                if m.pending.contains_key(id2) {
                    if id2 == id {
                        assert(news[news.len() - 1].id == id);
                    } else {
                        let k = choose|k: int| 0 <= k < old_subs.len() && old_subs[k].id == id2;
                        assert(news[k].id == id2);
                    }
                }
            }
            assert forall|id2: u64| #[trigger] pending_map(news).contains_key(id2) implies pending_map(news)[id2] == m.pending[id2] by {
                let k = choose|k: int| 0 <= k < news.len() && news[k].id == id2;
                lemma_pending_map_at(news, k);
                if k < old_subs.len() {
                    lemma_pending_map_at(old_subs, k);
                }
            }
            assert(pending_map(news) =~= m.pending);
        }
        Some(Subscription { id })
    }

    /// Ends a subscription. Safe to call more than once, and on a
    /// subscription that was dropped for falling behind.
    pub fn unsubscribe(&mut self, h: Subscription)
        requires
            old(self).wf(),
        ensures
            final(self).wf(),
            final(self)@ == (HubView { pending: old(self)@.pending.remove(h.id), ..old(self)@ }),
    {
        match self.find(h.id) {
            None => {
                assert(old(self)@.pending.remove(h.id) =~= old(self)@.pending);
            },
            Some(i) => {
                self.drop_at(i);
            },
        }
    }

    fn drop_at(&mut self, i: usize)
        requires
            old(self).wf(),
            i < old(self).subscribers@.len(),
        ensures
            final(self).wf(),
            final(self)@ == (HubView {
                pending: old(self)@.pending.remove(old(self).subscribers@[i as int].id),
                ..old(self)@
            }),
    {
        let ghost old_subs = self.subscribers@;
        let ghost id = old_subs[i as int].id;
        self.subscribers.remove(i);
        proof {
            let news = self.subscribers@;
            assert(news =~= old_subs.remove(i as int));
            let m = old(self)@.pending.remove(id);
            assert forall|a: int, b: int| 0 <= a < b < news.len() implies news[a].id != news[b].id by {
                let oa = if a < i { a } else { a + 1 };
                let ob = if b < i { b } else { b + 1 };
                assert(old_subs[oa].id != old_subs[ob].id);
            }
            assert forall|id2: u64| #[trigger] pending_map(news).contains_key(id2) <==> m.contains_key(id2) by {
                if pending_map(news).contains_key(id2) {
                    let k = choose|k: int| 0 <= k < news.len() && news[k].id == id2;
                    let ok = if k < i { k } else { k + 1 };
                    assert(old_subs[ok].id == id2);
                    assert(ok != i);
                    if ok < i {
                        assert(old_subs[ok].id != old_subs[i as int].id);
                    } else {
                        assert(old_subs[i as int].id != old_subs[ok].id);
                    }
                }
                if m.contains_key(id2) {
                    let k = choose|k: int| 0 <= k < old_subs.len() && old_subs[k].id == id2;
                    assert(k != i);
                    let nk = if k < i { k } else { k - 1 };
                    assert(news[nk].id == id2);
                }
            }
            assert forall|id2: u64| #[trigger] pending_map(news).contains_key(id2) implies pending_map(news)[id2] == m[id2] by {
                let k = choose|k: int| 0 <= k < news.len() && news[k].id == id2;
                let ok = if k < i { k } else { k + 1 };
                lemma_pending_map_at(news, k);
                lemma_pending_map_at(old_subs, ok);
            }
            assert(pending_map(news) =~= m);
        }
    }

    /// Takes the next event for subscription `h`.
    pub fn recv(&mut self, h: Subscription) -> (r: Delivery)
        requires
            old(self).wf(),
        ensures
            final(self).wf(),
            ({
                let m = old(self)@;
                if !m.is_subscribed(h.id) {
                    r is Closed && final(self)@ == m
                } else if m.lagged(h.id) {
                    r is Lagged && final(self)@ == (HubView { pending: m.pending.remove(h.id), ..m })
                } else if m.pending[h.id] == 0 {
                    r is Empty && final(self)@ == m
                } else {
                    r == Delivery::Event(m.backlog(h.id)[0])
                        && final(self)@ == (HubView {
                            pending: m.pending.insert(h.id, (m.pending[h.id] - 1) as nat),
                            ..m
                        })
                }
            }),
    {
        let i = match self.find(h.id) {
            None => {
                return Delivery::Closed;
            },
            Some(i) => i,
        };
        proof {
            lemma_pending_map_at(self.subscribers@, i as int);
        }
        let p = self.subscribers[i].pending;
        if p > self.capacity {
            self.drop_at(i);
            return Delivery::Lagged;
        }
        if p == 0 {
            return Delivery::Empty;
        }
        let e = self.window[self.window.len() - p].clone();
        let ghost old_subs = self.subscribers@;
        self.subscribers.set(i, Subscriber { id: h.id, pending: p - 1 });
        proof {
            let news = self.subscribers@;
            let m = old(self)@.pending.insert(h.id, (p - 1) as nat);
            assert forall|a: int, b: int| 0 <= a < b < news.len() implies news[a].id != news[b].id by {
                assert(news[a].id == old_subs[a].id);
                assert(news[b].id == old_subs[b].id);
            }
            assert forall|id2: u64| #[trigger] pending_map(news).contains_key(id2) <==> m.contains_key(id2) by {
                if pending_map(news).contains_key(id2) {
                    let k = choose|k: int| 0 <= k < news.len() && news[k].id == id2;
                    assert(old_subs[k].id == id2);
                }
                if m.contains_key(id2) && id2 != h.id {
                    let k = choose|k: int| 0 <= k < old_subs.len() && old_subs[k].id == id2;
                    assert(news[k].id == id2);
                }
                if id2 == h.id {
                    assert(news[i as int].id == id2);
                }
            }
            assert forall|id2: u64| #[trigger] pending_map(news).contains_key(id2) implies pending_map(news)[id2] == m[id2] by {
                let k = choose|k: int| 0 <= k < news.len() && news[k].id == id2;
                lemma_pending_map_at(news, k);
                lemma_pending_map_at(old_subs, k);
            }
            assert(pending_map(news) =~= m);
            assert forall|k: int| 0 <= k < news.len() implies {
                let s = #[trigger] news[k];
                &&& s.id < self.next_id
                &&& s.pending <= self.capacity + 1
                &&& s.pending <= self.capacity ==> s.pending <= self.window@.len()
            } by {
                assert(old_subs[k] == old(self).subscribers@[k]);
            }
        }
        Delivery::Event(e)
    }
}

} // verus!
