//! The publish/subscribe broker of a database: subscribers, the topics
//! that each has subscribed to, and the messages that wait for each.

use crate::assoc::AssocList;
use crate::codec::copy_bytes;
use crate::connection::SessionId;
use crate::error::{Error, ErrorView};
use crate::ids::{insert_id, remove_id};
use crate::text::str_equal;
use vstd::prelude::*;
use vstd::string::StringExecFns;

verus! {

/// A message: the topic it was published to, and its payload.
#[derive(Debug, PartialEq, Eq)]
pub struct Message {
    /// The topic that the message was published to.
    pub topic: String,
    /// The payload of the message.
    pub payload: Vec<u8>,
}

/// The mathematical content of a [`Message`].
pub struct MessageView {
    /// The topic.
    pub topic: Seq<char>,
    /// The payload.
    pub payload: Seq<u8>,
}

impl View for Message {
    type V = MessageView;

    open spec fn view(&self) -> MessageView {
        MessageView { topic: self.topic@, payload: self.payload@ }
    }
}

/// Whether `t` is one of `topics`.
pub open spec fn lists(topics: Seq<String>, t: Seq<char>) -> bool {
    exists|i: int| 0 <= i < topics.len() && (#[trigger] topics[i])@ == t
}

/// A subscriber: its topics, the messages that wait for it, and the number
/// of messages that were dropped because too many were waiting.
pub struct Subscriber {
    owner: Option<u64>,
    topics: Vec<String>,
    queue: Vec<Message>,
    dropped: u64,
}

/// The mathematical content of a [`Subscriber`].
pub struct SubscriberView {
    /// The id of the session that owns the subscriber, if one does.
    pub owner: Option<u64>,
    /// The topics that the subscriber has subscribed to.
    pub topics: Set<Seq<char>>,
    /// The messages that wait for the subscriber, oldest first.
    pub queue: Seq<MessageView>,
    /// The number of messages that were dropped; it stays at `u64::MAX`
    /// once it has got there.
    pub dropped: u64,
}

impl View for Subscriber {
    type V = SubscriberView;

    closed spec fn view(&self) -> SubscriberView {
        SubscriberView {
            owner: self.owner,
            topics: Set::new(|t: Seq<char>| lists(self.topics@, t)),
            queue: Seq::new(self.queue@.len(), |i: int| self.queue@[i]@),
            dropped: self.dropped,
        }
    }
}

impl Subscriber {
    /// Whether the subscriber has subscribed to `topic`.
    fn listens_to(&self, topic: &str) -> (r: bool)
        ensures
            r == self@.topics.contains(topic@),
    {
        let mut i: usize = 0;
        while i < self.topics.len()
            invariant
                i <= self.topics@.len(),
                forall|j: int| 0 <= j < i ==> (#[trigger] self.topics@[j])@ != topic@,
            decreases self.topics@.len() - i,
        {
            if str_equal(self.topics[i].as_str(), topic) {
                return true;
            }
            i += 1;
        }
        false
    }

    /// Subscribes to `topic`.
    fn subscribe(&mut self, topic: &str)
        ensures
            final(self)@ == (SubscriberView {
                topics: old(self)@.topics.insert(topic@),
                ..old(self)@
            }),
    {
        if !self.listens_to(topic) {
            let ghost before = self.topics@;
            self.topics.push(String::from_str(topic));
            proof {
                assert forall|t: Seq<char>| #[trigger]
                    lists(self.topics@, t) <==> (t == topic@ || lists(before, t)) by {
                    if lists(before, t) {
                        let i = choose|i: int| 0 <= i < before.len() && (#[trigger] before[i])@ == t;
                        assert(self.topics@[i]@ == t);
                    }
                    if t == topic@ {
                        assert(self.topics@[before.len() as int]@ == t);
                    }
                    if lists(self.topics@, t) {
                        let i = choose|i: int|
                            0 <= i < self.topics@.len() && (#[trigger] self.topics@[i])@ == t;
                        if i < before.len() {
                            assert(before[i]@ == t);
                        }
                    }
                }
                assert(self@.topics =~= old(self)@.topics.insert(topic@));
                assert(self@.queue =~= old(self)@.queue);
            }
        } else {
            assert(self@.topics =~= old(self)@.topics.insert(topic@));
        }
    }

    /// Ends the subscription to `topic`.
    fn unsubscribe(&mut self, topic: &str)
        ensures
            final(self)@ == (SubscriberView {
                topics: old(self)@.topics.remove(topic@),
                ..old(self)@
            }),
    {
        let mut kept: Vec<String> = Vec::new();
        let mut i: usize = 0;
        while i < self.topics.len()
            invariant
                i <= self.topics@.len(),
                forall|t: Seq<char>| #[trigger]
                    lists(kept@, t) <==> (t != topic@ && lists(self.topics@.take(i as int), t)),
            decreases self.topics@.len() - i,
        {
            let ghost before = kept@;
            let ghost seen = self.topics@.take(i as int);
            if !str_equal(self.topics[i].as_str(), topic) {
                kept.push(self.topics[i].clone());
            }
            proof {
                let grown = self.topics@.take(i + 1);
                assert forall|t: Seq<char>| #[trigger]
                    lists(kept@, t) <==> (t != topic@ && lists(grown, t)) by {
                    if lists(kept@, t) {
                        let a = choose|a: int| 0 <= a < kept@.len() && (#[trigger] kept@[a])@ == t;
                        if a < before.len() {
                            assert(before[a]@ == t);
                            assert(lists(before, t));
                            let b = choose|b: int| 0 <= b < seen.len() && (#[trigger] seen[b])@ == t;
                            assert(grown[b]@ == t);
                        } else {
                            assert(grown[i as int]@ == t);
                        }
                    }
                    if t != topic@ && lists(grown, t) {
                        let b = choose|b: int| 0 <= b < grown.len() && (#[trigger] grown[b])@ == t;
                        if b < i {
                            assert(seen[b]@ == t);
                            assert(lists(seen, t));
                            assert(lists(before, t));
                            let a = choose|a: int|
                                0 <= a < before.len() && (#[trigger] before[a])@ == t;
                            assert(kept@[a]@ == t);
                        } else {
                            assert(kept@[before.len() as int]@ == t);
                        }
                    }
                }
            }
            i += 1;
        }
        let ghost old_view = self@;
        proof {
            assert(self.topics@.take(self.topics@.len() as int) =~= self.topics@);
        }
        self.topics = kept;
        proof {
            assert(self@.topics =~= old_view.topics.remove(topic@));
            assert(self@.queue =~= old_view.queue);
        }
    }

    /// Hands a message to the subscriber: it is put behind the messages
    /// that wait, or dropped and counted if `capacity` messages are waiting.
    fn deliver(&mut self, topic: &str, payload: &[u8], capacity: usize)
        ensures
            final(self)@ == delivered(old(self)@, topic@, payload@, capacity),
    {
        if self.queue.len() < capacity {
            self.queue.push(
                Message {
                    topic: String::from_str(topic),
                    payload: copy_bytes(payload),
                },
            );
            proof {
                assert(self@.queue =~= old(self)@.queue.push(
                    MessageView { topic: topic@, payload: payload@ },
                ));
                assert(self@.topics =~= old(self)@.topics);
            }
        } else {
            if self.dropped < u64::MAX {
                self.dropped = self.dropped + 1;
            }
            proof {
                assert(self@.queue =~= old(self)@.queue);
                assert(self@.topics =~= old(self)@.topics);
            }
        }
    }

    /// Takes the oldest message that waits, if any does.
    fn take(&mut self) -> (message: Option<Message>)
        ensures
            match message {
                Some(m) => old(self)@.queue.len() > 0 && m@ == old(self)@.queue[0] && final(self)@
                    == (SubscriberView { queue: old(self)@.queue.drop_first(), ..old(self)@ }),
                None => old(self)@.queue.len() == 0 && final(self)@ == old(self)@,
            },
    {
        if self.queue.len() == 0 {
            None
        } else {
            let message = self.queue.remove(0);
            proof {
                assert(self@.queue =~= old(self)@.queue.drop_first());
                assert(self@.topics =~= old(self)@.topics);
            }
            Some(message)
        }
    }
}

/// A subscriber after a message was handed to it: the message waits behind
/// the others, or, if `capacity` messages were waiting, it is dropped and
/// counted.
pub open spec fn delivered(
    s: SubscriberView,
    topic: Seq<char>,
    payload: Seq<u8>,
    capacity: usize,
) -> SubscriberView {
    if s.queue.len() < capacity {
        SubscriberView { queue: s.queue.push(MessageView { topic, payload }), ..s }
    } else if s.dropped < u64::MAX {
        SubscriberView { dropped: (s.dropped + 1) as u64, ..s }
    } else {
        s
    }
}

/// The subscribers after `payload` was published to `topic`: it was handed
/// to each subscriber of the topic, and to no other.
pub open spec fn published(
    subscribers: Map<u64, SubscriberView>,
    topic: Seq<char>,
    payload: Seq<u8>,
    capacity: usize,
) -> Map<u64, SubscriberView> {
    Map::new(
        |id: u64| subscribers.contains_key(id),
        |id: u64|
            if subscribers[id].topics.contains(topic) {
                delivered(subscribers[id], topic, payload, capacity)
            } else {
                subscribers[id]
            },
    )
}

/// The subscribers after `payload` was published to each of the first
/// `count` of `topics`, in their order.
pub open spec fn published_to_all(
    subscribers: Map<u64, SubscriberView>,
    topics: Seq<Seq<char>>,
    payload: Seq<u8>,
    capacity: usize,
    count: nat,
) -> Map<u64, SubscriberView>
    decreases count,
{
    if count == 0 || count > topics.len() {
        subscribers
    } else {
        published(
            published_to_all(subscribers, topics, payload, capacity, (count - 1) as nat),
            topics[count - 1],
            payload,
            capacity,
        )
    }
}

/// Messages wait for a subscriber in the order in which they were
/// published, each once. Let `first` and then `second` be published to
/// `topic`. Then for a subscriber of the topic with room for both, the two
/// messages wait behind those that waited before, `first` before `second`;
/// and for a subscriber that is not subscribed to the topic nothing has
/// changed.
pub proof fn lemma_publish_order(
    subscribers: Map<u64, SubscriberView>,
    id: u64,
    topic: Seq<char>,
    first: Seq<u8>,
    second: Seq<u8>,
    capacity: usize,
)
    requires
        subscribers.contains_key(id),
    ensures
        ({
            let after = published(
                published(subscribers, topic, first, capacity),
                topic,
                second,
                capacity,
            );
            &&& after.contains_key(id)
            &&& subscribers[id].topics.contains(topic) && subscribers[id].queue.len() + 2
                <= capacity ==> after[id].queue == subscribers[id].queue.push(
                MessageView { topic, payload: first },
            ).push(MessageView { topic, payload: second })
            &&& !subscribers[id].topics.contains(topic) ==> after[id] == subscribers[id]
        }),
{
}

/// The id of the session that owns a subscriber.
pub open spec fn owner_view(owner: Option<SessionId>) -> Option<u64> {
    match owner {
        Some(session) => Some(session.0),
        None => None,
    }
}

/// The ids of the subscribers that the session `session` owns.
pub open spec fn owned_by(subscribers: Map<u64, SubscriberView>, session: u64) -> Set<u64> {
    Set::new(|id: u64| subscribers.contains_key(id) && subscribers[id].owner == Some(session))
}

/// The message of the error that the last id gives.
pub open spec fn out_of_ids_message() -> Seq<char> {
    "no id is left for a subscriber"@
}

/// The broker of one database: its subscribers by their ids, and for each
/// topic the ids of its subscribers.
pub struct Relay {
    subscribers: AssocList<u64, Subscriber>,
    index: AssocList<String, Vec<u64>>,
    next_id: u64,
    capacity: usize,
}

impl View for Relay {
    type V = Map<u64, SubscriberView>;

    /// The subscribers by their ids.
    closed spec fn view(&self) -> Map<u64, SubscriberView> {
        Map::new(
            |id: u64| self.subscribers@.contains_key(id),
            |id: u64| self.subscribers@[id]@,
        )
    }
}

impl Relay {
    /// Whether the index lists the subscriber `id` under the topic `t`.
    closed spec fn listed(&self, t: Seq<char>, id: u64) -> bool {
        self.index@.contains_key(t) && self.index@[t]@.contains(id)
    }

    /// Whether the subscriber `id` has subscribed to the topic `t`.
    closed spec fn subscribed(&self, t: Seq<char>, id: u64) -> bool {
        self@.contains_key(id) && self@[id].topics.contains(t)
    }

    /// The invariant: the ids that were given out are below the next one,
    /// and the index lists under each topic the subscribers of the topic,
    /// each once.
    pub closed spec fn wf(&self) -> bool {
        &&& self.subscribers.wf()
        &&& self.index.wf()
        &&& forall|id: u64| #[trigger] self.subscribers@.contains_key(id) ==> id < self.next_id
        &&& forall|t: Seq<char>| #[trigger]
            self.index@.contains_key(t) ==> self.index@[t]@.no_duplicates()
        &&& forall|t: Seq<char>, id: u64| #[trigger] self.listed(t, id) <==> self.subscribed(t, id)
    }

    /// The id that the next subscriber gets.
    pub closed spec fn next_id(&self) -> u64 {
        self.next_id
    }

    /// The number of messages that can wait for one subscriber.
    pub closed spec fn capacity(&self) -> usize {
        self.capacity
    }

    /// A relay with the index of `before`, whose subscribers are those of
    /// `before` with the topics that they had, is well formed.
    proof fn lemma_topics_kept(&self, before: Relay)
        requires
            before.wf(),
            self.index == before.index,
            self.subscribers.wf(),
            self.next_id == before.next_id,
            forall|id: u64| #[trigger] self@.contains_key(id) <==> before@.contains_key(id),
            forall|id: u64|
                before@.contains_key(id) ==> (#[trigger] self@[id]).topics == before@[id].topics,
        ensures
            self.wf(),
    {
        assert forall|id: u64| #[trigger] self.subscribers@.contains_key(id) implies id
            < self.next_id by {
            assert(self@.contains_key(id));
            assert(before@.contains_key(id));
            assert(before.subscribers@.contains_key(id));
        }
        assert forall|t: Seq<char>, id: u64| #[trigger]
            self.listed(t, id) <==> self.subscribed(t, id) by {
            assert(before.listed(t, id) <==> before.subscribed(t, id));
            assert(self.listed(t, id) == before.listed(t, id));
            if before@.contains_key(id) {
                assert(self@[id].topics == before@[id].topics);
            }
            assert(self@.contains_key(id) <==> before@.contains_key(id));
        }
    }

    /// A broker without subscribers, where up to `capacity` messages wait
    /// for each subscriber.
    pub fn new(capacity: usize) -> (relay: Relay)
        ensures
            relay.wf(),
            relay@ == Map::<u64, SubscriberView>::empty(),
            relay.capacity() == capacity,
            relay.next_id() == 1,
    {
        let relay = Relay {
            subscribers: AssocList::new(),
            index: AssocList::new(),
            next_id: 1,
            capacity,
        };
        assert(relay@ =~= Map::<u64, SubscriberView>::empty());
        relay
    }

    /// Creates a subscriber without topics, owned by the session `owner`
    /// if there is one, and returns its id: the next one. Fails, and
    /// changes nothing, when the ids are used up.
    pub fn create_subscriber(&mut self, owner: Option<SessionId>) -> (r: Result<u64, Error>)
        requires
            old(self).wf(),
        ensures
            final(self).wf(),
            final(self).capacity() == old(self).capacity(),
            match r {
                Ok(id) => {
                    &&& id == old(self).next_id()
                    &&& !old(self)@.contains_key(id)
                    &&& final(self).next_id() == id + 1
                    &&& final(self)@ == old(self)@.insert(
                        id,
                        SubscriberView {
                            owner: owner_view(owner),
                            topics: Set::empty(),
                            queue: Seq::empty(),
                            dropped: 0,
                        },
                    )
                },
                Err(e) => {
                    &&& old(self).next_id() == u64::MAX
                    &&& e@ == ErrorView::Other(out_of_ids_message())
                    &&& final(self)@ == old(self)@
                    &&& final(self).next_id() == old(self).next_id()
                },
            },
    {
        if self.next_id == u64::MAX {
            return Err(Error::Other(String::from_str("no id is left for a subscriber")));
        }
        let id = self.next_id;
        let subscriber = Subscriber {
            owner: match owner {
                Some(session) => Some(session.0),
                None => None,
            },
            topics: Vec::new(),
            queue: Vec::new(),
            dropped: 0,
        };
        proof {
            assert(subscriber@.topics =~= Set::empty());
            assert(subscriber@.queue =~= Seq::empty());
        }
        self.subscribers.insert(id, subscriber);
        self.next_id = id + 1;
        proof {
            assert(self@ =~= old(self)@.insert(
                id,
                SubscriberView {
                    owner: owner_view(owner),
                    topics: Set::empty(),
                    queue: Seq::empty(),
                    dropped: 0,
                },
            ));
            assert forall|t: Seq<char>, other: u64| #[trigger]
                self.listed(t, other) <==> self.subscribed(t, other) by {
                assert(old(self).listed(t, other) <==> old(self).subscribed(t, other));
                assert(self.listed(t, other) == old(self).listed(t, other));
                if other == id {
                    assert(!old(self).subscribed(t, other));
                }
            }
        }
        Ok(id)
    }

    /// Subscribes the subscriber `subscriber_id` to `topic`. Fails, and
    /// changes nothing, if there is no such subscriber.
    pub fn subscribe_to(&mut self, subscriber_id: u64, topic: &str) -> (r: Result<(), Error>)
        requires
            old(self).wf(),
        ensures
            final(self).wf(),
            final(self).capacity() == old(self).capacity(),
            final(self).next_id() == old(self).next_id(),
            match r {
                Ok(_) => old(self)@.contains_key(subscriber_id) && final(self)@ == old(self)@.insert(
                    subscriber_id,
                    SubscriberView {
                        topics: old(self)@[subscriber_id].topics.insert(topic@),
                        ..old(self)@[subscriber_id]
                    },
                ),
                Err(e) => !old(self)@.contains_key(subscriber_id) && final(self)@ == old(self)@
                    && e@ == ErrorView::SubscriberNotFound,
            },
    {
        if !self.subscribers.contains_key(&subscriber_id) {
            return Err(Error::SubscriberNotFound);
        }
        match self.subscribers.get_mut(&subscriber_id) {
            Some(subscriber) => {
                subscriber.subscribe(topic);
            },
            None => {},
        }
        let ghost middle = *self;
        let name = String::from_str(topic);
        let listed = self.index.contains_key(&name);
        if listed {
            match self.index.get_mut(&name) {
                Some(list) => {
                    insert_id(list, subscriber_id);
                },
                None => {},
            }
        } else {
            let mut list: Vec<u64> = Vec::new();
            list.push(subscriber_id);
            self.index.insert(name, list);
        }
        proof {
            assert(self@ =~= old(self)@.insert(
                subscriber_id,
                SubscriberView {
                    topics: old(self)@[subscriber_id].topics.insert(topic@),
                    ..old(self)@[subscriber_id]
                },
            ));
            assert forall|id: u64| #[trigger] self.subscribers@.contains_key(id) implies id
                < self.next_id by {
                assert(old(self).subscribers@.contains_key(id));
            }
            assert forall|t: Seq<char>| #[trigger] self.index@.contains_key(t) implies self.index@[t]@.no_duplicates() by {
                if t != topic@ {
                    assert(old(self).index@.contains_key(t));
                } else if listed {
                    assert(old(self).index@.contains_key(t));
                }
            }
            assert forall|t: Seq<char>, id: u64| #[trigger]
                self.listed(t, id) <==> self.subscribed(t, id) by {
                assert(old(self).listed(t, id) <==> old(self).subscribed(t, id));
                if t == topic@ {
                    if listed {
                        assert(self.index@[t]@.contains(id) <==> (id == subscriber_id || old(
                            self,
                        ).index@[t]@.contains(id)));
                    } else {
                        assert(self.index@[t]@ =~= seq![subscriber_id]);
                        assert(self.index@[t]@.contains(id) <==> id == subscriber_id) by {
                            if id == subscriber_id {
                                assert(self.index@[t]@[0] == id);
                            }
                        }
                    }
                } else {
                    assert(self.listed(t, id) == old(self).listed(t, id));
                }
            }
        }
        Ok(())
    }

    /// Ends the subscription of the subscriber `subscriber_id` to `topic`.
    /// Fails, and changes nothing, if there is no such subscriber.
    pub fn unsubscribe_from(&mut self, subscriber_id: u64, topic: &str) -> (r: Result<(), Error>)
        requires
            old(self).wf(),
        ensures
            final(self).wf(),
            final(self).capacity() == old(self).capacity(),
            final(self).next_id() == old(self).next_id(),
            match r {
                Ok(_) => old(self)@.contains_key(subscriber_id) && final(self)@ == old(self)@.insert(
                    subscriber_id,
                    SubscriberView {
                        topics: old(self)@[subscriber_id].topics.remove(topic@),
                        ..old(self)@[subscriber_id]
                    },
                ),
                Err(e) => !old(self)@.contains_key(subscriber_id) && final(self)@ == old(self)@
                    && e@ == ErrorView::SubscriberNotFound,
            },
    {
        if !self.subscribers.contains_key(&subscriber_id) {
            return Err(Error::SubscriberNotFound);
        }
        match self.subscribers.get_mut(&subscriber_id) {
            Some(subscriber) => {
                subscriber.unsubscribe(topic);
            },
            None => {},
        }
        let name = String::from_str(topic);
        let listed = self.index.contains_key(&name);
        if listed {
            match self.index.get_mut(&name) {
                Some(list) => {
                    remove_id(list, subscriber_id);
                },
                None => {},
            }
        }
        proof {
            assert(self@ =~= old(self)@.insert(
                subscriber_id,
                SubscriberView {
                    topics: old(self)@[subscriber_id].topics.remove(topic@),
                    ..old(self)@[subscriber_id]
                },
            ));
            assert forall|id: u64| #[trigger] self.subscribers@.contains_key(id) implies id
                < self.next_id by {
                assert(old(self).subscribers@.contains_key(id));
            }
            assert forall|t: Seq<char>| #[trigger] self.index@.contains_key(t) implies self.index@[t]@.no_duplicates() by {
                assert(old(self).index@.contains_key(t));
            }
            assert forall|t: Seq<char>, id: u64| #[trigger]
                self.listed(t, id) <==> self.subscribed(t, id) by {
                assert(old(self).listed(t, id) <==> old(self).subscribed(t, id));
                if t == topic@ {
                    if listed {
                        assert(self.index@[t]@.contains(id) <==> (id != subscriber_id && old(
                            self,
                        ).index@[t]@.contains(id)));
                    }
                } else {
                    assert(self.listed(t, id) == old(self).listed(t, id));
                }
            }
        }
        Ok(())
    }

    /// Takes the subscriber `id` out of the index.
    fn forget(&mut self, id: u64)
        requires
            old(self).subscribers.wf(),
            old(self).index.wf(),
            forall|t: Seq<char>| #[trigger]
                old(self).index@.contains_key(t) ==> old(self).index@[t]@.no_duplicates(),
        ensures
            final(self).subscribers == old(self).subscribers,
            final(self).next_id == old(self).next_id,
            final(self).capacity == old(self).capacity,
            final(self).index.wf(),
            forall|t: Seq<char>| #[trigger]
                final(self).index@.contains_key(t) ==> final(self).index@[t]@.no_duplicates(),
            forall|t: Seq<char>, other: u64| #[trigger]
                final(self).listed(t, other) <==> (other != id && old(self).listed(t, other)),
    {
        let ghost before = self.index@;
        let ghost keys = self.index.keys();
        let n = self.index.len();
        let mut i: usize = 0;
        proof {
            self.index.lemma_key_positions();
        }
        while i < n
            invariant
                self.subscribers == old(self).subscribers,
                self.next_id == old(self).next_id,
                self.capacity == old(self).capacity,
                self.index.wf(),
                self.index.keys() == keys,
                keys.no_duplicates(),
                n == keys.len(),
                i <= n,
                before == old(self).index@,
                forall|t: Seq<char>| #[trigger] self.index@.contains_key(t) <==> before.contains_key(t),
                forall|j: int| 0 <= j < n ==> before.contains_key(#[trigger] keys[j]),
                forall|t: Seq<char>| #[trigger]
                    before.contains_key(t) ==> before[t]@.no_duplicates(),
                forall|j: int|
                    0 <= j < n ==> self.index@[#[trigger] keys[j]]@.no_duplicates() && forall|
                        other: u64,
                    | #[trigger]
                        self.index@[keys[j]]@.contains(other) <==> ((j >= i || other != id)
                            && before[keys[j]]@.contains(other)),
            decreases n - i,
        {
            let name = self.index.key_at(i).clone();
            let ghost middle = self.index@;
            match self.index.get_mut(&name) {
                Some(list) => {
                    remove_id(list, id);
                },
                None => {},
            }
            proof {
                assert(name@ == keys[i as int]);
                assert forall|t: Seq<char>| #[trigger] self.index@.contains_key(t)
                    <==> before.contains_key(t) by {
                    assert(middle.contains_key(t) <==> before.contains_key(t));
                }
                assert forall|j: int| 0 <= j < n implies self.index@[#[trigger] keys[j]]@.no_duplicates()
                    && forall|other: u64| #[trigger]
                    self.index@[keys[j]]@.contains(other) <==> ((j >= i + 1 || other != id)
                        && before[keys[j]]@.contains(other)) by {
                    assert(middle[keys[j]]@.no_duplicates());
                    if j != i as int {
                        assert(keys[j] != keys[i as int]);
                        assert(self.index@[keys[j]] == middle[keys[j]]);
                    }
                    assert forall|other: u64| #[trigger]
                        self.index@[keys[j]]@.contains(other) <==> ((j >= i + 1 || other != id)
                            && before[keys[j]]@.contains(other)) by {
                        assert(middle[keys[j]]@.contains(other) <==> ((j >= i || other != id)
                            && before[keys[j]]@.contains(other)));
                    }
                }
            }
            i += 1;
        }
        proof {
            old(self).index.lemma_key_positions();
            assert forall|t: Seq<char>| #[trigger] self.index@.contains_key(t) implies self.index@[t]@.no_duplicates() by {
                assert(before.contains_key(t));
                let j = choose|j: int| 0 <= j < keys.len() && #[trigger] keys[j] == t;
                assert(self.index@[keys[j]]@.no_duplicates());
            }
            assert forall|t: Seq<char>, other: u64| #[trigger]
                self.listed(t, other) <==> (other != id && old(self).listed(t, other)) by {
                if before.contains_key(t) {
                    let j = choose|j: int| 0 <= j < keys.len() && #[trigger] keys[j] == t;
                    assert(self.index@[keys[j]]@.contains(other) <==> (other != id
                        && before[keys[j]]@.contains(other)));
                }
            }
        }
    }

    /// Removes the subscriber `subscriber_id`, with the messages that wait
    /// for it. Fails, and changes nothing, if there is no such subscriber.
    pub fn unregister_subscriber(&mut self, subscriber_id: u64) -> (r: Result<(), Error>)
        requires
            old(self).wf(),
        ensures
            final(self).wf(),
            final(self).capacity() == old(self).capacity(),
            final(self).next_id() == old(self).next_id(),
            match r {
                Ok(_) => old(self)@.contains_key(subscriber_id) && final(self)@ == old(self)@.remove(
                    subscriber_id,
                ),
                Err(e) => !old(self)@.contains_key(subscriber_id) && final(self)@ == old(self)@
                    && e@ == ErrorView::SubscriberNotFound,
            },
    {
        if !self.subscribers.contains_key(&subscriber_id) {
            return Err(Error::SubscriberNotFound);
        }
        self.subscribers.remove(&subscriber_id);
        let ghost middle = *self;
        self.forget(subscriber_id);
        proof {
            assert(self@ =~= old(self)@.remove(subscriber_id));
            assert forall|id: u64| #[trigger] self.subscribers@.contains_key(id) implies id
                < self.next_id by {
                assert(old(self).subscribers@.contains_key(id));
            }
            assert forall|t: Seq<char>, id: u64| #[trigger]
                self.listed(t, id) <==> self.subscribed(t, id) by {
                assert(old(self).listed(t, id) <==> old(self).subscribed(t, id));
                assert(middle.listed(t, id) == old(self).listed(t, id));
            }
        }
        Ok(())
    }

    /// Publishes `payload` to `topic`: the message is handed to each
    /// subscriber of the topic, and waits for it behind the messages that
    /// were published before; where too many wait, it is dropped for that
    /// subscriber and counted.
    pub fn publish(&mut self, topic: &str, payload: &[u8])
        requires
            old(self).wf(),
        ensures
            final(self).wf(),
            final(self).capacity() == old(self).capacity(),
            final(self).next_id() == old(self).next_id(),
            final(self)@ == published(old(self)@, topic@, payload@, old(self).capacity()),
    {
        let ghost before = self@;
        let name = String::from_str(topic);
        let capacity = self.capacity;
        match self.index.get(&name) {
            Some(list) => {
                let mut i: usize = 0;
                while i < list.len()
                    invariant
                        old(self).wf(),
                        self.index == old(self).index,
                        self.next_id == old(self).next_id,
                        self.capacity == old(self).capacity,
                        capacity == self.capacity,
                        self.subscribers.wf(),
                        before == old(self)@,
                        old(self).index@.contains_key(topic@),
                        *list == old(self).index@[topic@],
                        list@.no_duplicates(),
                        i <= list@.len(),
                        forall|id: u64| #[trigger] self@.contains_key(id) <==> before.contains_key(id),
                        forall|id: u64|
                            before.contains_key(id) ==> #[trigger] self@[id] == (if list@.take(
                                i as int,
                            ).contains(id) {
                                delivered(before[id], topic@, payload@, capacity)
                            } else {
                                before[id]
                            }),
                    decreases list@.len() - i,
                {
                    let id = list[i];
                    let ghost middle = self@;
                    let ghost inner = self.subscribers@;
                    proof {
                        assert(list@.contains(list@[i as int]));
                        assert(old(self).listed(topic@, id));
                        assert(old(self).subscribed(topic@, id));
                        assert(!list@.take(i as int).contains(id)) by {
                            if list@.take(i as int).contains(id) {
                                let j = choose|j: int|
                                    0 <= j < i && list@.take(i as int)[j] == id;
                                assert(list@[j] == list@[i as int]);
                            }
                        }
                    }
                    match self.subscribers.get_mut(&id) {
                        Some(subscriber) => {
                            subscriber.deliver(topic, payload, capacity);
                        },
                        None => {},
                    }
                    proof {
                        let seen = list@.take(i as int);
                        let grown = list@.take(i + 1);
                        assert(grown =~= seen.push(id));
                        assert forall|other: u64| #[trigger] self@.contains_key(other)
                            <==> before.contains_key(other) by {
                            assert(middle.contains_key(other) <==> before.contains_key(other));
                        }
                        assert forall|other: u64| before.contains_key(other) implies #[trigger] self@[other]
                            == (if grown.contains(other) {
                            delivered(before[other], topic@, payload@, capacity)
                        } else {
                            before[other]
                        }) by {
                            assert(middle[other] == (if seen.contains(other) {
                                delivered(before[other], topic@, payload@, capacity)
                            } else {
                                before[other]
                            }));
                            if other == id {
                                assert(grown[i as int] == id);
                                assert(grown.contains(id));
                                assert(before.contains_key(id));
                                assert(middle.contains_key(id));
                                assert(inner.contains_key(id));
                                assert(self@.contains_key(id));
                                assert(self@[id] == delivered(middle[id], topic@, payload@, capacity));
                            } else {
                                assert(middle.contains_key(other));
                                assert(inner.contains_key(other));
                                assert(self.subscribers@[other] == inner[other]);
                                assert(self@.contains_key(other));
                                assert(self@[other] == middle[other]);
                                if seen.contains(other) {
                                    let j = choose|j: int| 0 <= j < seen.len() && seen[j] == other;
                                    assert(grown[j] == other);
                                }
                                if grown.contains(other) {
                                    let j = choose|j: int| 0 <= j < grown.len() && grown[j] == other;
                                    assert(seen[j] == other);
                                }
                            }
                        }
                    }
                    i += 1;
                }
                proof {
                    assert(list@.take(list@.len() as int) =~= list@);
                    let target = published(before, topic@, payload@, capacity);
                    assert forall|id: u64| self@.contains_key(id) implies self@[id] == target[id] by {
                        assert(before.contains_key(id));
                        assert(old(self).listed(topic@, id) <==> old(self).subscribed(topic@, id));
                    }
                    assert(self@ =~= target);
                }
            },
            None => {
                proof {
                    let target = published(before, topic@, payload@, capacity);
                    assert forall|id: u64| before.contains_key(id) implies target[id] == before[id] by {
                        assert(old(self).listed(topic@, id) <==> old(self).subscribed(topic@, id));
                    }
                    assert(self@ =~= target);
                }
            },
        }
        proof {
            assert forall|id: u64| before.contains_key(id) implies (#[trigger] self@[id]).topics
                == before[id].topics by {}
            self.lemma_topics_kept(*old(self));
        }
    }

    /// Publishes `payload` to each of `topics`, in their order.
    pub fn publish_to_all(&mut self, topics: &Vec<String>, payload: &[u8])
        requires
            old(self).wf(),
        ensures
            final(self).wf(),
            final(self).capacity() == old(self).capacity(),
            final(self).next_id() == old(self).next_id(),
            final(self)@ == published_to_all(
                old(self)@,
                Seq::new(topics@.len(), |i: int| topics@[i]@),
                payload@,
                old(self).capacity(),
                topics@.len(),
            ),
    {
        let ghost names = Seq::new(topics@.len(), |i: int| topics@[i]@);
        let mut i: usize = 0;
        while i < topics.len()
            invariant
                self.wf(),
                self.capacity() == old(self).capacity(),
                self.next_id() == old(self).next_id(),
                i <= topics@.len(),
                names == Seq::new(topics@.len(), |i: int| topics@[i]@),
                self@ == published_to_all(
                    old(self)@,
                    names,
                    payload@,
                    old(self).capacity(),
                    i as nat,
                ),
            decreases topics@.len() - i,
        {
            self.publish(topics[i].as_str(), payload);
            i += 1;
        }
    }

    /// Takes the oldest message that waits for the subscriber
    /// `subscriber_id`, if any does. Fails, and changes nothing, if there
    /// is no such subscriber.
    pub fn receive(&mut self, subscriber_id: u64) -> (r: Result<Option<Message>, Error>)
        requires
            old(self).wf(),
        ensures
            final(self).wf(),
            final(self).capacity() == old(self).capacity(),
            final(self).next_id() == old(self).next_id(),
            match r {
                Ok(Some(m)) => {
                    &&& old(self)@.contains_key(subscriber_id)
                    &&& old(self)@[subscriber_id].queue.len() > 0
                    &&& m@ == old(self)@[subscriber_id].queue[0]
                    &&& final(self)@ == old(self)@.insert(
                        subscriber_id,
                        SubscriberView {
                            queue: old(self)@[subscriber_id].queue.drop_first(),
                            ..old(self)@[subscriber_id]
                        },
                    )
                },
                Ok(None) => {
                    &&& old(self)@.contains_key(subscriber_id)
                    &&& old(self)@[subscriber_id].queue.len() == 0
                    &&& final(self)@ == old(self)@
                },
                Err(e) => !old(self)@.contains_key(subscriber_id) && final(self)@ == old(self)@
                    && e@ == ErrorView::SubscriberNotFound,
            },
    {
        if !self.subscribers.contains_key(&subscriber_id) {
            return Err(Error::SubscriberNotFound);
        }
        let message = match self.subscribers.get_mut(&subscriber_id) {
            Some(subscriber) => subscriber.take(),
            None => None,
        };
        proof {
            match message {
                Some(_) => {
                    assert(self@ =~= old(self)@.insert(
                        subscriber_id,
                        SubscriberView {
                            queue: old(self)@[subscriber_id].queue.drop_first(),
                            ..old(self)@[subscriber_id]
                        },
                    ));
                },
                None => {
                    assert(self@ =~= old(self)@);
                },
            }
            self.lemma_topics_kept(*old(self));
        }
        Ok(message)
    }

    /// Removes the subscribers that the session `session` owns, with the
    /// messages that wait for them, and returns their ids.
    pub fn unregister_owned_by(&mut self, session: SessionId) -> (removed: Vec<u64>)
        requires
            old(self).wf(),
        ensures
            final(self).wf(),
            final(self).capacity() == old(self).capacity(),
            final(self).next_id() == old(self).next_id(),
            final(self)@ == old(self)@.remove_keys(owned_by(old(self)@, session.0)),
            removed@.no_duplicates(),
            removed@.to_set() == owned_by(old(self)@, session.0),
    {
        let ghost before = self@;
        let ghost owned = owned_by(before, session.0);
        let ghost keys = self.subscribers.keys();
        let n = self.subscribers.len();
        let mut removed: Vec<u64> = Vec::new();
        let mut i: usize = 0;
        proof {
            self.subscribers.lemma_key_positions();
        }
        while i < n
            invariant
                self.wf(),
                *self == *old(self),
                self@ == before,
                self.subscribers.keys() == keys,
                keys.no_duplicates(),
                n == keys.len(),
                i <= n,
                forall|j: int| 0 <= j < n ==> before.contains_key(#[trigger] keys[j]),
                removed@.no_duplicates(),
                forall|a: int|
                    0 <= a < removed@.len() ==> owned.contains(#[trigger] removed@[a])
                        && keys.take(i as int).contains(removed@[a]),
                forall|j: int|
                    0 <= j < i && owned.contains(#[trigger] keys[j]) ==> removed@.contains(keys[j]),
                owned == owned_by(before, session.0),
            decreases n - i,
        {
            let id = *self.subscribers.key_at(i);
            let ghost old_removed = removed@;
            let is_owned = match self.subscribers.value_at(i).owner {
                Some(owner) => owner == session.0,
                None => false,
            };
            if is_owned {
                removed.push(id);
            }
            proof {
                let seen = keys.take(i as int);
                let grown = keys.take(i + 1);
                assert(grown =~= seen.push(keys[i as int]));
                assert(!seen.contains(keys[i as int])) by {
                    if seen.contains(keys[i as int]) {
                        let j = choose|j: int| 0 <= j < seen.len() && seen[j] == keys[i as int];
                        assert(keys[j] == keys[i as int]);
                    }
                }
                assert forall|a: int| 0 <= a < removed@.len() implies owned.contains(
                    #[trigger] removed@[a],
                ) && grown.contains(removed@[a]) by {
                    if a < old_removed.len() {
                        assert(removed@[a] == old_removed[a]);
                        assert(seen.contains(old_removed[a]));
                        let j = choose|j: int| 0 <= j < seen.len() && seen[j] == old_removed[a];
                        assert(grown[j] == old_removed[a]);
                    } else {
                        assert(grown[i as int] == removed@[a]);
                    }
                }
                assert(removed@.no_duplicates()) by {
                    assert forall|a: int, b: int|
                        0 <= a < removed@.len() && 0 <= b < removed@.len() && a != b implies removed@[a]
                        != removed@[b] by {
                        if a < old_removed.len() && b < old_removed.len() {
                            assert(old_removed[a] != old_removed[b]);
                        } else if a < old_removed.len() {
                            assert(seen.contains(old_removed[a]));
                        } else {
                            assert(seen.contains(old_removed[b]));
                        }
                    }
                }
                assert forall|j: int| 0 <= j < i + 1 && owned.contains(
                    #[trigger] keys[j],
                ) implies removed@.contains(keys[j]) by {
                    if j < i {
                        assert(old_removed.contains(keys[j]));
                        let a = choose|a: int| 0 <= a < old_removed.len() && old_removed[a] == keys[j];
                        assert(removed@[a] == keys[j]);
                    } else {
                        assert(removed@[old_removed.len() as int] == keys[j]);
                    }
                }
            }
            i += 1;
        }
        proof {
            assert forall|id: u64| removed@.to_set().contains(id) <==> owned.contains(id) by {
                if removed@.contains(id) {
                    let a = choose|a: int| 0 <= a < removed@.len() && removed@[a] == id;
                    assert(owned.contains(removed@[a]));
                }
                if owned.contains(id) {
                    assert(before.contains_key(id));
                    assert(self.subscribers@.contains_key(id));
                    let j = choose|j: int| 0 <= j < keys.len() && #[trigger] keys[j] == id;
                    assert(removed@.contains(keys[j]));
                }
            }
            assert(removed@.to_set() =~= owned);
        }
        let mut j: usize = 0;
        proof {
            assert(removed@.take(0).to_set() =~= Set::<u64>::empty());
            assert(before.remove_keys(Set::<u64>::empty()) =~= before);
        }
        while j < removed.len()
            invariant
                self.wf(),
                self.capacity == old(self).capacity,
                self.next_id == old(self).next_id,
                j <= removed@.len(),
                self@ == before.remove_keys(removed@.take(j as int).to_set()),
            decreases removed@.len() - j,
        {
            let ghost done = removed@.take(j as int).to_set();
            let ghost middle = self@;
            let _ = self.unregister_subscriber(removed[j]);
            proof {
                let grown = removed@.take(j + 1);
                assert(grown =~= removed@.take(j as int).push(removed@[j as int]));
                assert forall|id: u64| grown.to_set().contains(id) <==> done.insert(
                    removed@[j as int],
                ).contains(id) by {
                    if grown.contains(id) {
                        let a = choose|a: int| 0 <= a < grown.len() && grown[a] == id;
                        if a < j {
                            assert(removed@.take(j as int)[a] == id);
                        }
                    }
                    if done.contains(id) {
                        let a = choose|a: int|
                            0 <= a < removed@.take(j as int).len() && removed@.take(j as int)[a]
                                == id;
                        assert(grown[a] == id);
                    }
                    if id == removed@[j as int] {
                        assert(grown[j as int] == id);
                    }
                }
                assert(grown.to_set() =~= done.insert(removed@[j as int]));
                assert(self@ =~= middle.remove(removed@[j as int]));
                assert(self@ =~= before.remove_keys(grown.to_set()));
            }
            j += 1;
        }
        proof {
            assert(removed@.take(removed@.len() as int) =~= removed@);
        }
        removed
    }
}

} // verus!
