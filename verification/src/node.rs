//! A node's state and what it decides on each message it receives.

use vstd::prelude::*;
use crate::address_map::{AddressMap, PeerView, address_changes, with_address, with_connected, every_peer_connected};
use crate::message::Message;
use crate::names::{name_set, name_seq, distinct_names, contains_name, copy_names};
use crate::timer::{Timer, TimerView};

verus! {

/// The name of the timer that pings unconnected peers.
pub open spec fn ping_timer_name() -> Seq<char> {
    "dynamic_broadcast_ping"@
}

/// The interval of the ping timer: one second, in nanoseconds.
pub const PING_INTERVAL_NANOS: u64 = 1_000_000_000;

struct Publication {
    topic: String,
    subscribers: Vec<String>,
}

spec fn topics_distinct(s: Seq<Publication>) -> bool {
    forall|i: int, j: int| 0 <= i < s.len() && 0 <= j < s.len() && i != j ==> #[trigger] s[i].topic@ != #[trigger] s[j].topic@
}

spec fn has_topic(s: Seq<Publication>, k: Seq<char>) -> bool {
    exists|i: int| 0 <= i < s.len() && #[trigger] s[i].topic@ == k
}

spec fn topic_index(s: Seq<Publication>, k: Seq<char>) -> int {
    choose|i: int| 0 <= i < s.len() && #[trigger] s[i].topic@ == k
}

spec fn publications_map(s: Seq<Publication>) -> Map<Seq<char>, Set<Seq<char>>> {
    Map::new(|k: Seq<char>| has_topic(s, k), |k: Seq<char>| name_set(s[topic_index(s, k)].subscribers@))
}

proof fn lemma_topic_index(s: Seq<Publication>, i: int)
    requires
        topics_distinct(s),
        0 <= i < s.len(),
    ensures
        has_topic(s, s[i].topic@),
        topic_index(s, s[i].topic@) == i,
        publications_map(s).dom().contains(s[i].topic@),
        publications_map(s)[s[i].topic@] == name_set(s[i].subscribers@),
{
    assert(has_topic(s, s[i].topic@));
}

proof fn lemma_replace_publication(s: Seq<Publication>, i: int, p: Publication)
    requires
        topics_distinct(s),
        0 <= i < s.len(),
        p.topic@ == s[i].topic@,
    ensures
        topics_distinct(s.update(i, p)),
        publications_map(s.update(i, p)) =~= publications_map(s).insert(p.topic@, name_set(p.subscribers@)),
{
    let t = s.update(i, p);
    assert(topics_distinct(t)) by {
        assert forall|a: int, b: int| 0 <= a < t.len() && 0 <= b < t.len() && a != b implies #[trigger] t[a].topic@ != #[trigger] t[b].topic@ by {
            assert(s[a].topic@ != s[b].topic@);
        }
    }
    lemma_topic_index(s, i);
    lemma_topic_index(t, i);
    assert forall|k: Seq<char>| #[trigger] publications_map(t).dom().contains(k) <==> publications_map(s).insert(p.topic@, name_set(p.subscribers@)).dom().contains(k) by {
        if has_topic(t, k) {
            let j = choose|j: int| 0 <= j < t.len() && #[trigger] t[j].topic@ == k;
            if j != i {
                assert(s[j].topic@ == k);
            }
        }
        if has_topic(s, k) {
            let j = choose|j: int| 0 <= j < s.len() && #[trigger] s[j].topic@ == k;
            if j != i {
                assert(t[j].topic@ == k);
            }
        }
    }
    assert forall|k: Seq<char>| #[trigger] publications_map(t).dom().contains(k) && k != p.topic@ implies publications_map(t)[k] == publications_map(s)[k] by {
        let j = choose|j: int| 0 <= j < t.len() && #[trigger] t[j].topic@ == k;
        assert(j != i);
        lemma_topic_index(t, j);
        lemma_topic_index(s, j);
    }
}

/// The publisher map after peer `origin` subscribed to `topics`: each
/// published topic among them gains `origin` as a subscriber.
pub open spec fn with_subscriber(
    pubs: Map<Seq<char>, Set<Seq<char>>>,
    published: Set<Seq<char>>,
    origin: Seq<char>,
    topics: Set<Seq<char>>,
) -> Map<Seq<char>, Set<Seq<char>>> {
    Map::new(
        |t: Seq<char>| pubs.dom().contains(t),
        |t: Seq<char>| if published.contains(t) && topics.contains(t) { pubs[t].insert(origin) } else { pubs[t] },
    )
}

/// The published topics among `topics` that `origin` did not subscribe to
/// yet.
pub open spec fn new_subscriptions(
    pubs: Map<Seq<char>, Set<Seq<char>>>,
    published: Set<Seq<char>>,
    origin: Seq<char>,
    topics: Set<Seq<char>>,
) -> Set<Seq<char>> {
    Set::new(|t: Seq<char>| topics.contains(t) && published.contains(t) && !pubs[t].contains(origin))
}

/// What the node's runtime does after a message was handled.
#[derive(PartialEq, Eq, Debug)]
pub enum NodeAction {
    /// Call the callback registered for this topic with the message.
    Deliver(String),
    /// Peer `name` is now at `address`: open (or replace) its socket.
    Reconnect { name: String, address: String },
    /// Send the node's acknowledgement to this peer.
    SendAck(String),
    /// Send this message to every peer.
    SendToAll(Message),
    /// Peer `origin` now subscribes to these published topics: add its socket
    /// to each of them.
    AddSubscriber { origin: String, topics: Vec<String> },
    /// Nothing to do.
    Nothing,
}

/// A node's own state: its name, the topics that have a callback, its
/// address map, the topics it subscribes to and publishes, and for each
/// published topic the peers that subscribe to it.
pub struct Node {
    name: String,
    callbacks: Vec<String>,
    address_map: AddressMap,
    local_subscribers: Vec<String>,
    local_publishers: Vec<String>,
    publisher_map: Vec<Publication>,
}

impl Node {
    /// The node's invariant: its address map is well formed, each published
    /// topic occurs once in the publisher map, and every topic the node
    /// publishes has an entry there.
    pub closed spec fn wf(&self) -> bool {
        &&& self.address_map.wf()
        &&& topics_distinct(self.publisher_map@)
        &&& forall|t: Seq<char>| #[trigger] name_set(self.local_publishers@).contains(t) ==> publications_map(self.publisher_map@).dom().contains(t)
    }

    /// The node's name.
    pub closed spec fn name_view(&self) -> Seq<char> {
        self.name@
    }

    /// The topics that have a callback.
    pub closed spec fn callbacks(&self) -> Set<Seq<char>> {
        name_set(self.callbacks@)
    }

    /// The peers of the node's address map.
    pub closed spec fn peers(&self) -> Map<Seq<char>, PeerView> {
        self.address_map.peers()
    }

    /// Whether full connection has been reported.
    pub closed spec fn reported_all_connected(&self) -> bool {
        self.address_map.reported_all_connected()
    }

    /// The topics the node subscribes to, in the order of subscription.
    pub closed spec fn subscriptions(&self) -> Seq<Seq<char>> {
        name_seq(self.local_subscribers@)
    }

    /// The topics the node publishes.
    pub closed spec fn publishes(&self) -> Set<Seq<char>> {
        name_set(self.local_publishers@)
    }

    /// For each published topic, the peers that subscribe to it.
    pub closed spec fn publications(&self) -> Map<Seq<char>, Set<Seq<char>>> {
        publications_map(self.publisher_map@)
    }

    /// A node named `name` that knows only itself, has no callbacks, and
    /// neither subscribes nor publishes.
    pub fn new(name: &str) -> (n: Node)
        ensures
            n.wf(),
            n.name_view() == name@,
            n.callbacks() =~= Set::empty(),
            n.peers() =~= map![name@ => PeerView { address: crate::address_map::own_endpoint(), connected: false }],
            !n.reported_all_connected(),
            n.subscriptions() =~= Seq::empty(),
            n.publishes() =~= Set::empty(),
            n.publications() =~= Map::empty(),
    {
        let n = Node {
            name: name.to_owned(),
            callbacks: Vec::new(),
            address_map: AddressMap::new(name),
            local_subscribers: Vec::new(),
            local_publishers: Vec::new(),
            publisher_map: Vec::new(),
        };
        assert(n.callbacks() =~= Set::empty());
        assert(n.publishes() =~= Set::empty());
        assert(n.publications() =~= Map::empty());
        n
    }

    /// The node's name.
    pub fn name(&self) -> (r: &str)
        ensures
            r@ == self.name_view(),
    {
        self.name.as_str()
    }

    /// The node's address map.
    pub fn address_map(&self) -> (r: &AddressMap)
        ensures
            r.peers() == self.peers(),
            r.reported_all_connected() == self.reported_all_connected(),
            self.wf() ==> r.wf(),
    {
        &self.address_map
    }

    /// The acknowledgement the node sends in answer to a ping.
    pub fn ack_message(&self) -> (m: Message)
        ensures
            m matches Message::Ack { origin } && origin@ == self.name_view(),
    {
        Message::Ack { origin: self.name.clone() }
    }

    /// The ping the node sends to peers that are not connected.
    pub fn ping_message(&self) -> (m: Message)
        ensures
            m matches Message::Ping { origin } && origin@ == self.name_view(),
    {
        Message::Ping { origin: self.name.clone() }
    }

    /// Whether `topic` has a callback.
    pub fn has_callback(&self, topic: &str) -> (r: bool)
        ensures
            r == self.callbacks().contains(topic@),
    {
        contains_name(&self.callbacks, &topic.to_owned())
    }

    fn register_callback(&mut self, topic: &str)
        ensures
            final(self).callbacks() =~= old(self).callbacks().insert(topic@),
            final(self).name == old(self).name,
            final(self).address_map == old(self).address_map,
            final(self).local_subscribers == old(self).local_subscribers,
            final(self).local_publishers == old(self).local_publishers,
            final(self).publisher_map == old(self).publisher_map,
    {
        let key = topic.to_owned();
        if !contains_name(&self.callbacks, &key) {
            let ghost before = self.callbacks@;
            self.callbacks.push(key);
            assert forall|k: Seq<char>| name_set(self.callbacks@).contains(k) <==> name_set(before).insert(topic@).contains(k) by {
                if name_set(before).contains(k) {
                    let i = choose|i: int| 0 <= i < before.len() && #[trigger] before[i]@ == k;
                    assert(self.callbacks@[i]@ == k);
                }
                if k == topic@ {
                    assert(self.callbacks@[before.len() as int]@ == k);
                }
                if name_set(self.callbacks@).contains(k) {
                    let i = choose|i: int| 0 <= i < self.callbacks@.len() && #[trigger] self.callbacks@[i]@ == k;
                    if i < before.len() {
                        assert(before[i]@ == k);
                    }
                }
            }
        }
    }

    /// Registers a callback on topic `name` and makes the timer that fires it
    /// every `interval_nanos`, first at `now_nanos + interval_nanos`; the
    /// runtime keeps the callback and hands the timer to the timer thread.
    pub fn add_timer(&mut self, name: &str, interval_nanos: u64, now_nanos: u64) -> (t: Timer)
        requires
            old(self).wf(),
            now_nanos + interval_nanos <= u64::MAX,
        ensures
            final(self).wf(),
            t@ == (TimerView { name: name@, interval: interval_nanos, next_event: (now_nanos + interval_nanos) as u64 }),
            final(self).callbacks() == old(self).callbacks().insert(name@),
            final(self).name_view() == old(self).name_view(),
            final(self).peers() == old(self).peers(),
            final(self).reported_all_connected() == old(self).reported_all_connected(),
            final(self).subscriptions() == old(self).subscriptions(),
            final(self).publishes() == old(self).publishes(),
            final(self).publications() == old(self).publications(),
    {
        self.register_callback(name);
        Timer::new(name, interval_nanos, now_nanos)
    }

    /// Subscribes to `topic`: the topic is added to the subscriptions that
    /// the node announces and gets a callback; the runtime keeps the callback.
    pub fn subscribe_text(&mut self, topic: &str)
        requires
            old(self).wf(),
        ensures
            final(self).wf(),
            final(self).subscriptions() == old(self).subscriptions().push(topic@),
            final(self).callbacks() == old(self).callbacks().insert(topic@),
            final(self).name_view() == old(self).name_view(),
            final(self).peers() == old(self).peers(),
            final(self).reported_all_connected() == old(self).reported_all_connected(),
            final(self).publishes() == old(self).publishes(),
            final(self).publications() == old(self).publications(),
    {
        let ghost before = self.local_subscribers@;
        self.local_subscribers.push(topic.to_owned());
        assert(name_seq(self.local_subscribers@) =~= name_seq(before).push(topic@));
        self.register_callback(topic);
    }

    /// Registers the callback of the ping timer and makes that timer: it
    /// fires every second, first one second after `now_nanos`.
    pub fn ping_timer(&mut self, now_nanos: u64) -> (t: Timer)
        requires
            old(self).wf(),
            now_nanos + PING_INTERVAL_NANOS <= u64::MAX,
        ensures
            final(self).wf(),
            t@ == (TimerView { name: ping_timer_name(), interval: PING_INTERVAL_NANOS, next_event: (now_nanos + PING_INTERVAL_NANOS) as u64 }),
            final(self).callbacks() == old(self).callbacks().insert(ping_timer_name()),
            final(self).name_view() == old(self).name_view(),
            final(self).peers() == old(self).peers(),
            final(self).reported_all_connected() == old(self).reported_all_connected(),
            final(self).subscriptions() == old(self).subscriptions(),
            final(self).publishes() == old(self).publishes(),
            final(self).publications() == old(self).publications(),
    {
        self.add_timer("dynamic_broadcast_ping", PING_INTERVAL_NANOS, now_nanos)
    }

    /// The peers that the ping timer pings: none once full connection has
    /// been reported, otherwise every peer that is not connected.
    pub fn ping_targets(&self) -> (names: Vec<String>)
        requires
            self.wf(),
        ensures
            name_set(names@) == (if self.reported_all_connected() {
                Set::empty()
            } else {
                self.peers().dom().filter(|k: Seq<char>| !self.peers()[k].connected)
            }),
            distinct_names(names@),
    {
        if self.address_map.is_all_connected() {
            let names: Vec<String> = Vec::new();
            assert(name_set(names@) =~= Set::empty());
            names
        } else {
            self.address_map.unconnected_peers()
        }
    }

    fn find_publication(&self, topic: &String) -> (r: Option<usize>)
        requires
            topics_distinct(self.publisher_map@),
        ensures
            r matches Some(i) ==> i < self.publisher_map@.len() && self.publisher_map@[i as int].topic@ == topic@,
            r is None ==> !publications_map(self.publisher_map@).dom().contains(topic@),
    {
        let mut i: usize = 0;
        while i < self.publisher_map.len()
            invariant
                i <= self.publisher_map@.len(),
                forall|j: int| 0 <= j < i ==> #[trigger] self.publisher_map@[j].topic@ != topic@,
            decreases self.publisher_map@.len() - i,
        {
            if self.publisher_map[i].topic == *topic {
                return Some(i);
            }
            i = i + 1;
        }
        None
    }

    /// Peer `origin` subscribes to `topics`.
    fn add_subscriber(&mut self, origin: String, topics: &Vec<String>) -> (added: Vec<String>)
        requires
            old(self).wf(),
        ensures
            final(self).wf(),
            final(self).publications() == with_subscriber(old(self).publications(), old(self).publishes(), origin@, name_set(topics@)),
            name_set(added@) == new_subscriptions(old(self).publications(), old(self).publishes(), origin@, name_set(topics@)),
            distinct_names(added@),
            final(self).name == old(self).name,
            final(self).callbacks == old(self).callbacks,
            final(self).address_map == old(self).address_map,
            final(self).local_subscribers == old(self).local_subscribers,
            final(self).local_publishers == old(self).local_publishers,
    {
        let ghost pubs0 = self.publications();
        let ghost published = self.publishes();
        let mut added: Vec<String> = Vec::new();
        let mut i: usize = 0;
        assert(with_subscriber(pubs0, published, origin@, name_set(topics@.take(0))) =~= pubs0);
        assert(name_set(added@) =~= new_subscriptions(pubs0, published, origin@, name_set(topics@.take(0))));
        while i < topics.len()
            invariant
                i <= topics@.len(),
                self.wf(),
                self.name == old(self).name,
                self.callbacks == old(self).callbacks,
                self.address_map == old(self).address_map,
                self.local_subscribers == old(self).local_subscribers,
                self.local_publishers == old(self).local_publishers,
                pubs0 == old(self).publications(),
                published == old(self).publishes(),
                published == self.publishes(),
                self.publications() =~= with_subscriber(pubs0, published, origin@, name_set(topics@.take(i as int))),
                name_set(added@) =~= new_subscriptions(pubs0, published, origin@, name_set(topics@.take(i as int))),
                distinct_names(added@),
            decreases topics@.len() - i,
        {
            let ghost before_pubs = self.publications();
            let ghost before_added = added@;
            let topic = &topics[i];
            let ghost step = name_set(topics@.take(i as int));
            assert(name_set(topics@.take(i + 1)) =~= step.insert(topic@)) by {
                assert forall|k: Seq<char>| name_set(topics@.take(i + 1)).contains(k) <==> step.insert(topic@).contains(k) by {
                    if name_set(topics@.take(i + 1)).contains(k) {
                        let j = choose|j: int| 0 <= j < i + 1 && #[trigger] topics@.take(i + 1)[j]@ == k;
                        if j < i {
                            assert(topics@.take(i as int)[j]@ == k);
                        }
                    }
                    if step.contains(k) {
                        let j = choose|j: int| 0 <= j < i && #[trigger] topics@.take(i as int)[j]@ == k;
                        assert(topics@.take(i + 1)[j]@ == k);
                    }
                    if k == topic@ {
                        assert(topics@.take(i + 1)[i as int]@ == k);
                    }
                }
            }
            if contains_name(&self.local_publishers, topic) {
                match self.find_publication(topic) {
                    Some(idx) => {
                        proof {
                            lemma_topic_index(self.publisher_map@, idx as int);
                        }
                        if !contains_name(&self.publisher_map[idx].subscribers, &origin) {
                            let ghost entries = self.publisher_map@;
                            let mut subscribers = copy_names(&self.publisher_map[idx].subscribers);
                            subscribers.push(origin.clone());
                            let p = Publication { topic: topic.clone(), subscribers };
                            proof {
                                lemma_replace_publication(entries, idx as int, p);
                                assert(name_set(p.subscribers@) =~= name_set(entries[idx as int].subscribers@).insert(origin@)) by {
                                    assert forall|k: Seq<char>| name_set(p.subscribers@).contains(k) <==> name_set(entries[idx as int].subscribers@).insert(origin@).contains(k) by {
                                        let old_subs = entries[idx as int].subscribers@;
                                        assert(name_seq(p.subscribers@).len() == name_seq(old_subs).len() + 1);
                                        if name_set(p.subscribers@).contains(k) {
                                            let j = choose|j: int| 0 <= j < p.subscribers@.len() && #[trigger] p.subscribers@[j]@ == k;
                                            if j < old_subs.len() {
                                                assert(name_seq(p.subscribers@)[j] == name_seq(old_subs)[j]);
                                                assert(old_subs[j]@ == k);
                                            }
                                        }
                                        if name_set(old_subs).contains(k) {
                                            let j = choose|j: int| 0 <= j < old_subs.len() && #[trigger] old_subs[j]@ == k;
                                            assert(name_seq(p.subscribers@)[j] == name_seq(old_subs)[j]);
                                            assert(p.subscribers@[j]@ == k);
                                        }
                                        if k == origin@ {
                                            assert(p.subscribers@[old_subs.len() as int]@ == k);
                                        }
                                    }
                                }
                            }
                            self.publisher_map.set(idx, p);
                            added.push(topic.clone());
                            proof {
                                assert(self.publishes() == published);
                                assert forall|a: int, b: int| 0 <= a < added@.len() && 0 <= b < added@.len() && a != b implies #[trigger] added@[a]@ != #[trigger] added@[b]@ by {
                                    if a < before_added.len() && b < before_added.len() {
                                        assert(before_added[a]@ != before_added[b]@);
                                    } else if a < before_added.len() {
                                        assert(name_set(before_added).contains(added@[a]@));
                                    } else {
                                        assert(name_set(before_added).contains(added@[b]@));
                                    }
                                }
                                assert forall|k: Seq<char>| name_set(added@).contains(k) <==> name_set(before_added).insert(topic@).contains(k) by {
                                    if name_set(added@).contains(k) {
                                        let j = choose|j: int| 0 <= j < added@.len() && #[trigger] added@[j]@ == k;
                                        if j < before_added.len() {
                                            assert(before_added[j]@ == k);
                                        }
                                    }
                                    if name_set(before_added).contains(k) {
                                        let j = choose|j: int| 0 <= j < before_added.len() && #[trigger] before_added[j]@ == k;
                                        assert(added@[j]@ == k);
                                    }
                                    if k == topic@ {
                                        assert(added@[before_added.len() as int]@ == k);
                                    }
                                }
                            }
                        }
                    },
                    None => {},
                }
            }
            proof {
                let newm = with_subscriber(pubs0, published, origin@, name_set(topics@.take(i + 1)));
                assert(self.publications().dom() =~= newm.dom());
                assert forall|t: Seq<char>| #[trigger] newm.dom().contains(t) implies self.publications()[t] =~= newm[t] by {
                    if t == topic@ && published.contains(t) {
                        assert(self.publications()[t].contains(origin@));
                        assert(self.publications()[t] =~= pubs0[t].insert(origin@));
                    }
                }
                assert(self.publications() =~= newm);
                assert(name_set(added@) =~= new_subscriptions(pubs0, published, origin@, name_set(topics@.take(i + 1))));
            }
            i = i + 1;
        }
        assert(topics@.take(topics@.len() as int) =~= topics@);
        added
    }

    /// What the node does on a message from the network.
    /// - A topic message is delivered to the callback of its topic, which must
    ///   exist.
    /// - An address message records that its origin is at the endpoint in its
    ///   topic; when that changes the map, the peer's socket is reopened.
    /// - A ping from a known peer is acknowledged; one from an unknown peer is
    ///   ignored.
    /// - An acknowledgement marks its origin connected; when every peer is
    ///   connected for the first time, the node's subscriptions go to every
    ///   peer.
    /// - A subscription message adds its origin as a subscriber of each topic
    ///   among them that the node publishes.
    pub fn handle_message(&mut self, msg: Message) -> (a: NodeAction)
        requires
            old(self).wf(),
            msg matches Message::Topic { topic, .. } ==> old(self).callbacks().contains(topic@),
        ensures
            final(self).wf(),
            final(self).name_view() == old(self).name_view(),
            final(self).callbacks() == old(self).callbacks(),
            final(self).subscriptions() == old(self).subscriptions(),
            final(self).publishes() == old(self).publishes(),
            match msg {
                Message::Topic { topic, .. } => {
                    &&& a == NodeAction::Deliver(topic)
                    &&& final(self).peers() == old(self).peers()
                    &&& final(self).reported_all_connected() == old(self).reported_all_connected()
                    &&& final(self).publications() == old(self).publications()
                },
                Message::Address { topic, origin } => {
                    let changed = address_changes(old(self).peers(), origin@, topic@);
                    &&& final(self).peers() == (if changed { with_address(old(self).peers(), origin@, topic@) } else { old(self).peers() })
                    &&& a == (if changed { NodeAction::Reconnect { name: origin, address: topic } } else { NodeAction::Nothing })
                    &&& final(self).reported_all_connected() == old(self).reported_all_connected()
                    &&& final(self).publications() == old(self).publications()
                },
                Message::Ping { origin } => {
                    &&& a == (if old(self).peers().dom().contains(origin@) { NodeAction::SendAck(origin) } else { NodeAction::Nothing })
                    &&& final(self).peers() == old(self).peers()
                    &&& final(self).reported_all_connected() == old(self).reported_all_connected()
                    &&& final(self).publications() == old(self).publications()
                },
                Message::Ack { origin } => {
                    let peers = with_connected(old(self).peers(), origin@);
                    let newly = !old(self).reported_all_connected() && every_peer_connected(peers);
                    &&& final(self).peers() == peers
                    &&& final(self).peers().dom() == old(self).peers().dom()
                    &&& (old(self).peers().dom().contains(origin@) ==> final(self).peers()[origin@].connected)
                    &&& final(self).reported_all_connected() == (old(self).reported_all_connected() || every_peer_connected(peers))
                    &&& final(self).publications() == old(self).publications()
                    &&& if newly {
                        &&& a matches NodeAction::SendToAll(Message::PubSub { origin: o, subscriptions })
                        &&& o@ == old(self).name_view()
                        &&& name_seq(subscriptions@) == old(self).subscriptions()
                    } else {
                        a == NodeAction::Nothing
                    }
                },
                Message::PubSub { origin, subscriptions } => {
                    &&& final(self).peers() == old(self).peers()
                    &&& final(self).reported_all_connected() == old(self).reported_all_connected()
                    &&& final(self).publications() == with_subscriber(old(self).publications(), old(self).publishes(), origin@, name_set(subscriptions@))
                    &&& a matches NodeAction::AddSubscriber { origin: o, topics }
                    &&& o@ == origin@
                    &&& name_set(topics@) == new_subscriptions(old(self).publications(), old(self).publishes(), origin@, name_set(subscriptions@))
                    &&& distinct_names(topics@)
                },
            },
    {
        match msg {
            Message::Topic { topic, .. } => NodeAction::Deliver(topic),
            Message::Address { topic, origin } => {
                if self.address_map.update_address(origin.as_str(), topic.as_str()) {
                    NodeAction::Reconnect { name: origin, address: topic }
                } else {
                    NodeAction::Nothing
                }
            },
            Message::Ping { origin } => {
                if self.address_map.contains(origin.as_str()) {
                    NodeAction::SendAck(origin)
                } else {
                    NodeAction::Nothing
                }
            },
            Message::Ack { origin } => {
                proof {
                    crate::address_map::lemma_marking_connected(old(self).peers(), origin@);
                }
                self.address_map.set_connected(origin.as_str());
                if self.address_map.all_newly_connected() {
                    let subscriptions = copy_names(&self.local_subscribers);
                    NodeAction::SendToAll(Message::PubSub { origin: self.name.clone(), subscriptions })
                } else {
                    NodeAction::Nothing
                }
            },
            Message::PubSub { origin, subscriptions } => {
                let o = origin.clone();
                let topics = self.add_subscriber(origin, &subscriptions);
                NodeAction::AddSubscriber { origin: o, topics }
            },
        }
    }
}

} // verus!
