//! The message bus: a typed publish/subscribe router.
//!
//! Topics are keyed by a number (the engine keys order events by client
//! order id). Publishing appends to the topic's message sequence, so two
//! messages published to the same topic are observed by every reader in
//! publish order; messages on different topics carry no cross-topic
//! ordering. The bus performs no validation and publication success is
//! never acknowledged — it is a pure router.

use vstd::prelude::*;
use crate::events::OrderEvent;

verus! {

/// One topic: its key, its messages in publish order, and the handles of
/// its subscribers.
pub struct Topic {
    pub key: u64,
    pub messages: Vec<OrderEvent>,
    pub subscribers: Vec<u64>,
}

/// Ghost state of one topic.
pub ghost struct TopicView {
    pub key: u64,
    pub messages: Seq<OrderEvent>,
    pub subscribers: Seq<u64>,
}

impl View for Topic {
    type V = TopicView;

    open spec fn view(&self) -> TopicView {
        TopicView { key: self.key, messages: self.messages@, subscribers: self.subscribers@ }
    }
}

/// Ghost state of the bus.
pub ghost struct BusView {
    pub topics: Seq<TopicView>,
    pub next_handle: u64,
}

/// Whether some topic carries `key`.
pub open spec fn contains_topic(topics: Seq<TopicView>, key: u64) -> bool {
    exists|i: int| 0 <= i < topics.len() && (#[trigger] topics[i]).key == key
}

/// Index of the topic carrying `key`; under [`BusView::wf`] at most one
/// does.
pub open spec fn topic_index(topics: Seq<TopicView>, key: u64) -> int {
    choose|i: int| 0 <= i < topics.len() && (#[trigger] topics[i]).key == key
}

impl BusView {
    /// Topic keys are unique.
    pub open spec fn wf(self) -> bool {
        forall|i: int, j: int|
            0 <= i < self.topics.len() && 0 <= j < self.topics.len() && i != j ==> (
            #[trigger] self.topics[i]).key != (#[trigger] self.topics[j]).key
    }

    /// The messages published so far to `key`, in publish order.
    pub open spec fn messages_of(self, key: u64) -> Seq<OrderEvent> {
        if contains_topic(self.topics, key) {
            self.topics[topic_index(self.topics, key)].messages
        } else {
            Seq::<OrderEvent>::empty()
        }
    }

    /// What publishing does: the message is appended to its topic (the
    /// topic is created on first use); every other topic is untouched.
    pub open spec fn publish_spec(self, key: u64, ev: OrderEvent) -> BusView {
        if contains_topic(self.topics, key) {
            let i = topic_index(self.topics, key);
            let t = self.topics[i];
            BusView {
                topics: self.topics.update(i, TopicView { messages: t.messages.push(ev), ..t }),
                ..self
            }
        } else {
            BusView {
                topics: self.topics.push(
                    TopicView {
                        key,
                        messages: seq![ev],
                        subscribers: Seq::<u64>::empty(),
                    },
                ),
                ..self
            }
        }
    }

    /// A whole batch published in order to the topics its events name
    /// (each event goes to the topic keyed by its client order id).
    pub open spec fn publish_all_spec(self, evs: Seq<OrderEvent>) -> BusView
        decreases evs.len(),
    {
        if evs.len() == 0 {
            self
        } else {
            self.publish_spec(evs[0].client_order_id.0, evs[0]).publish_all_spec(evs.drop_first())
        }
    }

    /// What subscribing does: a fresh handle is appended to the topic's
    /// subscribers (the topic is created on first use); `None` once the
    /// handle space is exhausted.
    pub open spec fn subscribe_spec(self, key: u64) -> (BusView, Option<u64>) {
        if self.next_handle == u64::MAX {
            (self, None)
        } else {
            let h = self.next_handle;
            let next = (self.next_handle + 1) as u64;
            if contains_topic(self.topics, key) {
                let i = topic_index(self.topics, key);
                let t = self.topics[i];
                (
                    BusView {
                        topics: self.topics.update(
                            i,
                            TopicView { subscribers: t.subscribers.push(h), ..t },
                        ),
                        next_handle: next,
                    },
                    Some(h),
                )
            } else {
                (
                    BusView {
                        topics: self.topics.push(
                            TopicView {
                                key,
                                messages: Seq::<OrderEvent>::empty(),
                                subscribers: seq![h],
                            },
                        ),
                        next_handle: next,
                    },
                    Some(h),
                )
            }
        }
    }

    /// What unsubscribing does: the handle leaves the topic's subscriber
    /// list; a handle (or key) not subscribed changes nothing, so
    /// unsubscribing is idempotent.
    pub open spec fn unsubscribe_spec(self, key: u64, handle: u64) -> BusView {
        if contains_topic(self.topics, key) {
            let i = topic_index(self.topics, key);
            let t = self.topics[i];
            match t.subscribers.index_of_first(handle) {
                Some(j) => BusView {
                    topics: self.topics.update(
                        i,
                        TopicView { subscribers: t.subscribers.remove(j), ..t },
                    ),
                    ..self
                },
                None => self,
            }
        } else {
            self
        }
    }
}

/// The bus.
pub struct MessageBus {
    pub topics: Vec<Topic>,
    pub next_handle: u64,
}

impl View for MessageBus {
    type V = BusView;

    open spec fn view(&self) -> BusView {
        BusView {
            topics: Seq::new(self.topics@.len(), |i: int| self.topics@[i]@),
            next_handle: self.next_handle,
        }
    }
}

/// Index of the first (under [`BusView::wf`] the only) topic carrying
/// `key`.
fn find_topic(topics: &Vec<Topic>, key: u64) -> (r: Option<usize>)
    ensures
        match r {
            Some(k) => k < topics@.len() && topics@[k as int]@.key == key,
            None => !contains_topic(Seq::new(topics@.len(), |i: int| topics@[i]@), key),
        },
{
    let mut k: usize = 0;
    loop
        invariant
            k <= topics@.len(),
            forall|i: int| 0 <= i < k ==> (#[trigger] topics@[i])@.key != key,
        ensures
            k == topics@.len(),
            forall|i: int| 0 <= i < k ==> (#[trigger] topics@[i])@.key != key,
        decreases topics@.len() - k,
    {
        if k == topics.len() {
            break;
        }
        if topics[k].key == key {
            return Some(k);
        }
        k = k + 1;
    }
    proof {
        let ghost view = Seq::new(topics@.len(), |i: int| topics@[i]@);
        assert forall|i: int| 0 <= i < view.len() implies (#[trigger] view[i]).key != key by {
            assert(view[i] == topics@[i]@);
        }
    }
    None
}

impl MessageBus {
    /// An empty bus.
    pub fn new() -> (b: MessageBus)
        ensures
            b@.topics == Seq::<TopicView>::empty(),
            b@.next_handle == 0u64,
            b@.wf(),
    {
        let b = MessageBus { topics: Vec::new(), next_handle: 0 };
        proof {
            assert(b@.topics =~= Seq::<TopicView>::empty());
        }
        b
    }

    /// Publishes one event to the topic keyed by `key`, exactly as
    /// [`BusView::publish_spec`] says.
    pub fn publish(&mut self, key: u64, ev: OrderEvent)
        requires
            old(self)@.wf(),
        ensures
            final(self)@.wf(),
            final(self)@ == old(self)@.publish_spec(key, ev),
    {
        let ghost pre = self@;
        match find_topic(&self.topics, key) {
            Some(k) => {
                proof {
                    assert(pre.topics[k as int].key == key);
                    assert(contains_topic(pre.topics, key));
                    let ci = topic_index(pre.topics, key);
                    assert(pre.topics[ci].key == key);
                    assert(ci == k as int);
                }
                let mut t = self.topics.remove(k);
                t.messages.push(ev);
                self.topics.insert(k, t);
                proof {
                    let i = k as int;
                    let t0 = pre.topics[i];
                    assert(self@.topics =~= pre.topics.update(
                        i,
                        TopicView { messages: t0.messages.push(ev), ..t0 },
                    ));
                    Self::lemma_update_wf(pre, self@, i);
                }
            },
            None => {
                let t = Topic { key, messages: vec![ev], subscribers: Vec::new() };
                proof {
                    assert(t@.messages =~= seq![ev]);
                    assert(t@.subscribers =~= Seq::<u64>::empty());
                }
                self.topics.push(t);
                proof {
                    assert(self@.topics =~= pre.topics.push(
                        TopicView { key, messages: seq![ev], subscribers: Seq::<u64>::empty() },
                    ));
                    assert forall|i: int, j: int|
                        0 <= i < self@.topics.len() && 0 <= j < self@.topics.len() && i
                            != j implies (#[trigger] self@.topics[i]).key
                        != (#[trigger] self@.topics[j]).key by {
                        if i < pre.topics.len() && j < pre.topics.len() {
                            assert(self@.topics[i] == pre.topics[i]);
                            assert(self@.topics[j] == pre.topics[j]);
                        } else if i < pre.topics.len() {
                            assert(self@.topics[i] == pre.topics[i]);
                            assert(self@.topics[j].key == key);
                            assert(!contains_topic(pre.topics, key));
                        } else {
                            assert(self@.topics[i].key == key);
                            assert(self@.topics[j] == pre.topics[j]);
                            assert(!contains_topic(pre.topics, key));
                        }
                    }
                }
            },
        }
    }

    /// An updated topic keeps its key, so the bus stays well formed.
    proof fn lemma_update_wf(pre: BusView, post: BusView, k: int)
        requires
            pre.wf(),
            0 <= k < pre.topics.len(),
            post.topics.len() == pre.topics.len(),
            forall|i: int|
                0 <= i < post.topics.len() ==> (#[trigger] post.topics[i]).key
                    == pre.topics[i].key,
        ensures
            post.wf(),
    {
    }

    /// Subscribes to the topic keyed by `key`, exactly as
    /// [`BusView::subscribe_spec`] says; returns the subscription handle.
    pub fn subscribe(&mut self, key: u64) -> (h: Option<u64>)
        requires
            old(self)@.wf(),
        ensures
            final(self)@.wf(),
            (final(self)@, h) == old(self)@.subscribe_spec(key),
    {
        let ghost pre = self@;
        if self.next_handle == u64::MAX {
            return None;
        }
        let h = self.next_handle;
        self.next_handle = self.next_handle + 1;
        match find_topic(&self.topics, key) {
            Some(k) => {
                proof {
                    assert(pre.topics[k as int].key == key);
                    assert(contains_topic(pre.topics, key));
                    let ci = topic_index(pre.topics, key);
                    assert(pre.topics[ci].key == key);
                    assert(ci == k as int);
                }
                let mut t = self.topics.remove(k);
                t.subscribers.push(h);
                self.topics.insert(k, t);
                proof {
                    let i = k as int;
                    let t0 = pre.topics[i];
                    assert(self@.topics =~= pre.topics.update(
                        i,
                        TopicView { subscribers: t0.subscribers.push(h), ..t0 },
                    ));
                    Self::lemma_update_wf(pre, self@, i);
                }
            },
            None => {
                let t = Topic { key, messages: Vec::new(), subscribers: vec![h] };
                proof {
                    assert(t@.messages =~= Seq::<OrderEvent>::empty());
                    assert(t@.subscribers =~= seq![h]);
                }
                self.topics.push(t);
                proof {
                    assert(self@.topics =~= pre.topics.push(
                        TopicView { key, messages: Seq::<OrderEvent>::empty(), subscribers: seq![h] },
                    ));
                    assert forall|i: int, j: int|
                        0 <= i < self@.topics.len() && 0 <= j < self@.topics.len() && i
                            != j implies (#[trigger] self@.topics[i]).key
                        != (#[trigger] self@.topics[j]).key by {
                        if i < pre.topics.len() && j < pre.topics.len() {
                            assert(self@.topics[i] == pre.topics[i]);
                            assert(self@.topics[j] == pre.topics[j]);
                        } else if i < pre.topics.len() {
                            assert(self@.topics[i] == pre.topics[i]);
                            assert(!contains_topic(pre.topics, key));
                        } else if j < pre.topics.len() {
                            assert(self@.topics[j] == pre.topics[j]);
                            assert(!contains_topic(pre.topics, key));
                        }
                    }
                }
            },
        }
        Some(h)
    }

    /// Drops a subscription, exactly as [`BusView::unsubscribe_spec`]
    /// says; unsubscribing a handle that is not subscribed is a no-op.
    pub fn unsubscribe(&mut self, key: u64, handle: u64)
        requires
            old(self)@.wf(),
        ensures
            final(self)@.wf(),
            final(self)@ == old(self)@.unsubscribe_spec(key, handle),
    {
        let ghost pre = self@;
        let k: usize = match find_topic(&self.topics, key) {
            None => {
                return ;
            },
            Some(k) => k,
        };
        proof {
            assert(pre.topics[k as int].key == key);
            assert(contains_topic(pre.topics, key));
            let ci = topic_index(pre.topics, key);
            assert(pre.topics[ci].key == key);
            assert(ci == k as int);
        }
        let mut t = self.topics.remove(k);
        let mut j: usize = 0;
        let mut found: Option<usize> = None;
        loop
            invariant_except_break
                found is None,
            invariant
                j <= t@.subscribers.len(),
                forall|i: int| 0 <= i < j ==> t@.subscribers[i] != handle,
                t@ == pre.topics[k as int],
            ensures
                t@ == pre.topics[k as int],
                match found {
                    Some(f) => f < t@.subscribers.len() && t@.subscribers[f as int] == handle
                        && forall|i: int| 0 <= i < f ==> t@.subscribers[i] != handle,
                    None => forall|i: int|
                        0 <= i < t@.subscribers.len() ==> t@.subscribers[i] != handle,
                },
            decreases t@.subscribers.len() - j,
        {
            if j == t.subscribers.len() {
                break;
            }
            if t.subscribers[j] == handle {
                found = Some(j);
                break;
            }
            j = j + 1;
        }
        match found {
            Some(f) => {
                proof {
                    let t0 = pre.topics[k as int];
                    t0.subscribers.index_of_first_ensures(handle);
                    assert(t0.subscribers[f as int] == handle);
                    assert(t0.subscribers.contains(handle));
                    let fi = t0.subscribers.index_of_first(handle).unwrap();
                    assert(t0.subscribers[fi] == handle);
                    if fi < f as int {
                        assert(t0.subscribers[fi] != handle);
                    }
                    if fi > f as int {
                        assert(t0.subscribers[f as int] != handle);
                    }
                    assert(fi == f as int);
                }
                t.subscribers.remove(f);
                self.topics.insert(k, t);
                proof {
                    let i = k as int;
                    let t0 = pre.topics[i];
                    assert(self@.topics =~= pre.topics.update(
                        i,
                        TopicView { subscribers: t0.subscribers.remove(f as int), ..t0 },
                    ));
                    Self::lemma_update_wf(pre, self@, i);
                }
            },
            None => {
                self.topics.insert(k, t);
                proof {
                    let t0 = pre.topics[k as int];
                    t0.subscribers.index_of_first_ensures(handle);
                    assert(!t0.subscribers.contains(handle));
                    assert(self@.topics =~= pre.topics);
                }
            },
        }
    }

    /// The messages published so far to `key`, in publish order.
    pub fn messages_for(&self, key: u64) -> (msgs: Vec<OrderEvent>)
        requires
            self@.wf(),
        ensures
            msgs@ == self@.messages_of(key),
    {
        let mut out: Vec<OrderEvent> = Vec::new();
        let k: usize = match find_topic(&self.topics, key) {
            None => {
                proof {
                    assert(out@ =~= Seq::<OrderEvent>::empty());
                }
                return out;
            },
            Some(k) => k,
        };
        proof {
            assert(self@.topics[k as int].key == key);
            assert(contains_topic(self@.topics, key));
            let ci = topic_index(self@.topics, key);
            assert(self@.topics[ci].key == key);
            assert(ci == k as int);
        }
        let n: usize = self.topics[k].messages.len();
        let mut i: usize = 0;
        loop
            invariant
                i <= n,
                k < self@.topics.len(),
                n == self@.topics[k as int].messages.len(),
                out@ == self@.topics[k as int].messages.take(i as int),
            ensures
                i == n,
                out@ == self@.topics[k as int].messages.take(i as int),
            decreases n - i,
        {
            if i == n {
                break;
            }
            out.push(self.topics[k].messages[i]);
            proof {
                assert(self@.topics[k as int].messages.take(i as int + 1)
                    =~= self@.topics[k as int].messages.take(i as int).push(
                    self@.topics[k as int].messages[i as int],
                ));
            }
            i = i + 1;
        }
        proof {
            assert(self@.topics[k as int].messages.take(n as int)
                =~= self@.topics[k as int].messages);
        }
        out
    }
}

} // verus!
