//! The addresses of the peers a node knows, and whether each is connected.

use vstd::prelude::*;
use crate::names::{name_set, distinct_names};

verus! {

/// What the map records of one peer: the endpoint of its message socket and
/// whether it has acknowledged a ping.
pub struct PeerView {
    pub address: Seq<char>,
    pub connected: bool,
}

struct Peer {
    name: String,
    address: String,
    connected: bool,
}

spec fn peer_view(p: Peer) -> PeerView {
    PeerView { address: p.address@, connected: p.connected }
}

spec fn names_distinct(s: Seq<Peer>) -> bool {
    forall|i: int, j: int| 0 <= i < s.len() && 0 <= j < s.len() && i != j ==> #[trigger] s[i].name@ != #[trigger] s[j].name@
}

spec fn has_name(s: Seq<Peer>, k: Seq<char>) -> bool {
    exists|i: int| 0 <= i < s.len() && #[trigger] s[i].name@ == k
}

spec fn index_of(s: Seq<Peer>, k: Seq<char>) -> int {
    choose|i: int| 0 <= i < s.len() && #[trigger] s[i].name@ == k
}

spec fn peers_map(s: Seq<Peer>) -> Map<Seq<char>, PeerView> {
    Map::new(|k: Seq<char>| has_name(s, k), |k: Seq<char>| peer_view(s[index_of(s, k)]))
}

proof fn lemma_index_of(s: Seq<Peer>, i: int)
    requires
        names_distinct(s),
        0 <= i < s.len(),
    ensures
        has_name(s, s[i].name@),
        index_of(s, s[i].name@) == i,
        peers_map(s).dom().contains(s[i].name@),
        peers_map(s)[s[i].name@] == peer_view(s[i]),
{
    assert(has_name(s, s[i].name@));
}

/// Whether `address` differs from what `m` records for `name` (or `name`
/// is not recorded at all): exactly then an update changes the map.
pub open spec fn address_changes(m: Map<Seq<char>, PeerView>, name: Seq<char>, address: Seq<char>) -> bool {
    !(m.dom().contains(name) && m[name].address == address)
}

/// `m` with `name` at `address`: a known peer keeps its connection flag, a
/// new one starts unconnected.
pub open spec fn with_address(m: Map<Seq<char>, PeerView>, name: Seq<char>, address: Seq<char>) -> Map<Seq<char>, PeerView> {
    m.insert(name, PeerView {
        address,
        connected: m.dom().contains(name) && m[name].connected,
    })
}

/// `m` with peer `name` marked connected; `m` itself when `name` is unknown.
pub open spec fn with_connected(m: Map<Seq<char>, PeerView>, name: Seq<char>) -> Map<Seq<char>, PeerView> {
    if m.dom().contains(name) {
        m.insert(name, PeerView { connected: true, ..m[name] })
    } else {
        m
    }
}

/// Every peer of `m` is connected.
pub open spec fn every_peer_connected(m: Map<Seq<char>, PeerView>) -> bool {
    forall|k: Seq<char>| m.dom().contains(k) ==> #[trigger] m[k].connected
}

/// The endpoint a new map records for the node itself.
pub open spec fn own_endpoint() -> Seq<char> {
    "tcp://localhost:55555"@
}

/// The peers a node knows by name, each with its address and connection
/// flag, and whether full connection has been reported yet.
pub struct AddressMap {
    all_connected: bool,
    node_name: String,
    peers: Vec<Peer>,
}

impl AddressMap {
    /// The map's invariant: no name occurs twice.
    pub closed spec fn wf(&self) -> bool {
        names_distinct(self.peers@)
    }

    /// The peers by name.
    pub closed spec fn peers(&self) -> Map<Seq<char>, PeerView> {
        peers_map(self.peers@)
    }

    /// Whether full connection has been reported.
    pub closed spec fn reported_all_connected(&self) -> bool {
        self.all_connected
    }

    /// The name of the node that owns the map.
    pub closed spec fn node_name(&self) -> Seq<char> {
        self.node_name@
    }

    /// A map for node `name` that knows only the node itself, at
    /// `tcp://localhost:55555`, not yet connected.
    pub fn new(name: &str) -> (m: AddressMap)
        ensures
            m.wf(),
            m.peers() =~= map![name@ => PeerView { address: own_endpoint(), connected: false }],
            !m.reported_all_connected(),
            m.node_name() == name@,
    {
        let mut peers: Vec<Peer> = Vec::new();
        peers.push(Peer { name: name.to_owned(), address: "tcp://localhost:55555".to_owned(), connected: false });
        let m = AddressMap { all_connected: false, node_name: name.to_owned(), peers };
        proof {
            lemma_index_of(m.peers@, 0);
            assert forall|k: Seq<char>| #[trigger] m.peers().dom().contains(k) implies k == name@ by {
                let i = choose|i: int| 0 <= i < m.peers@.len() && #[trigger] m.peers@[i].name@ == k;
            }
        }
        m
    }

    fn find(&self, name: &String) -> (r: Option<usize>)
        requires
            self.wf(),
        ensures
            r matches Some(i) ==> i < self.peers@.len() && self.peers@[i as int].name@ == name@,
            r is None ==> !self.peers().dom().contains(name@),
    {
        let mut i: usize = 0;
        while i < self.peers.len()
            invariant
                i <= self.peers@.len(),
                forall|j: int| 0 <= j < i ==> #[trigger] self.peers@[j].name@ != name@,
            decreases self.peers@.len() - i,
        {
            if self.peers[i].name == *name {
                return Some(i);
            }
            i = i + 1;
        }
        None
    }

    /// Whether `name` is a known peer.
    pub fn contains(&self, name: &str) -> (r: bool)
        requires
            self.wf(),
        ensures
            r == self.peers().dom().contains(name@),
    {
        let key = name.to_owned();
        match self.find(&key) {
            Some(i) => {
                proof {
                    lemma_index_of(self.peers@, i as int);
                }
                true
            },
            None => false,
        }
    }

    /// The address recorded for `name`, or `None` when `name` is unknown.
    pub fn address_of(&self, name: &str) -> (r: Option<String>)
        requires
            self.wf(),
        ensures
            r is Some <==> self.peers().dom().contains(name@),
            r matches Some(a) ==> a@ == self.peers()[name@].address,
    {
        let key = name.to_owned();
        match self.find(&key) {
            Some(i) => {
                proof {
                    lemma_index_of(self.peers@, i as int);
                }
                Some(self.peers[i].address.clone())
            },
            None => None,
        }
    }

    /// Whether `name` is a known, connected peer.
    pub fn is_connected(&self, name: &str) -> (r: bool)
        requires
            self.wf(),
        ensures
            r == (self.peers().dom().contains(name@) && self.peers()[name@].connected),
    {
        let key = name.to_owned();
        match self.find(&key) {
            Some(i) => {
                proof {
                    lemma_index_of(self.peers@, i as int);
                }
                self.peers[i].connected
            },
            None => false,
        }
    }

    /// Replaces the entry at index `i`, whose name stays the same.
    proof fn lemma_replace(s: Seq<Peer>, i: int, p: Peer)
        requires
            names_distinct(s),
            0 <= i < s.len(),
            p.name@ == s[i].name@,
        ensures
            names_distinct(s.update(i, p)),
            peers_map(s.update(i, p)) =~= peers_map(s).insert(p.name@, peer_view(p)),
    {
        let t = s.update(i, p);
        assert(names_distinct(t)) by {
            assert forall|a: int, b: int| 0 <= a < t.len() && 0 <= b < t.len() && a != b implies #[trigger] t[a].name@ != #[trigger] t[b].name@ by {
                assert(s[a].name@ != s[b].name@);
            }
        }
        lemma_index_of(s, i);
        lemma_index_of(t, i);
        assert forall|k: Seq<char>| #[trigger] peers_map(t).dom().contains(k) <==> peers_map(s).insert(p.name@, peer_view(p)).dom().contains(k) by {
            if has_name(t, k) {
                let j = choose|j: int| 0 <= j < t.len() && #[trigger] t[j].name@ == k;
                if j != i {
                    assert(s[j].name@ == k);
                }
            }
            if has_name(s, k) {
                let j = choose|j: int| 0 <= j < s.len() && #[trigger] s[j].name@ == k;
                if j != i {
                    assert(t[j].name@ == k);
                }
            }
        }
        assert forall|k: Seq<char>| #[trigger] peers_map(t).dom().contains(k) && k != p.name@ implies peers_map(t)[k] == peers_map(s)[k] by {
            let j = choose|j: int| 0 <= j < t.len() && #[trigger] t[j].name@ == k;
            assert(j != i);
            lemma_index_of(t, j);
            lemma_index_of(s, j);
        }
    }

    /// Appends an entry whose name is new.
    proof fn lemma_append(s: Seq<Peer>, p: Peer)
        requires
            names_distinct(s),
            !peers_map(s).dom().contains(p.name@),
        ensures
            names_distinct(s.push(p)),
            peers_map(s.push(p)) =~= peers_map(s).insert(p.name@, peer_view(p)),
    {
        let t = s.push(p);
        assert(names_distinct(t)) by {
            assert forall|a: int, b: int| 0 <= a < t.len() && 0 <= b < t.len() && a != b implies #[trigger] t[a].name@ != #[trigger] t[b].name@ by {
                if a == s.len() {
                    assert(!has_name(s, p.name@));
                    assert(s[b].name@ != p.name@);
                } else if b == s.len() {
                    assert(!has_name(s, p.name@));
                    assert(s[a].name@ != p.name@);
                } else {
                    assert(s[a].name@ != s[b].name@);
                }
            }
        }
        lemma_index_of(t, s.len() as int);
        assert forall|k: Seq<char>| #[trigger] peers_map(t).dom().contains(k) <==> peers_map(s).insert(p.name@, peer_view(p)).dom().contains(k) by {
            if has_name(t, k) {
                let j = choose|j: int| 0 <= j < t.len() && #[trigger] t[j].name@ == k;
                if j < s.len() {
                    assert(s[j].name@ == k);
                }
            }
            if has_name(s, k) {
                let j = choose|j: int| 0 <= j < s.len() && #[trigger] s[j].name@ == k;
                assert(t[j].name@ == k);
            }
        }
        assert forall|k: Seq<char>| #[trigger] peers_map(t).dom().contains(k) && k != p.name@ implies peers_map(t)[k] == peers_map(s)[k] by {
            let j = choose|j: int| 0 <= j < t.len() && #[trigger] t[j].name@ == k;
            assert(j != s.len());
            lemma_index_of(t, j);
            lemma_index_of(s, j);
        }
    }

    /// Records that peer `name` is reachable at `address`.  Returns `false`
    /// and changes nothing when the map already has exactly that address for
    /// `name`; otherwise records it (a known peer keeps its connection flag, a
    /// new one starts unconnected) and returns `true`.
    pub fn update_address(&mut self, name: &str, address: &str) -> (changed: bool)
        requires
            old(self).wf(),
        ensures
            final(self).wf(),
            changed == address_changes(old(self).peers(), name@, address@),
            final(self).peers() == (if changed { with_address(old(self).peers(), name@, address@) } else { old(self).peers() }),
            final(self).reported_all_connected() == old(self).reported_all_connected(),
            final(self).node_name() == old(self).node_name(),
    {
        let key = name.to_owned();
        let new_address = address.to_owned();
        match self.find(&key) {
            Some(i) => {
                proof {
                    lemma_index_of(self.peers@, i as int);
                }
                if self.peers[i].address == new_address {
                    return false;
                }
                let connected = self.peers[i].connected;
                let ghost before = self.peers@;
                let p = Peer { name: key, address: new_address, connected };
                proof {
                    Self::lemma_replace(before, i as int, p);
                }
                self.peers.set(i, p);
                true
            },
            None => {
                let ghost before = self.peers@;
                let p = Peer { name: key, address: new_address, connected: false };
                proof {
                    Self::lemma_append(before, p);
                }
                self.peers.push(p);
                true
            },
        }
    }

    /// Marks peer `name` as connected; does nothing when `name` is unknown.
    pub fn set_connected(&mut self, name: &str)
        requires
            old(self).wf(),
        ensures
            final(self).wf(),
            final(self).peers() == with_connected(old(self).peers(), name@),
            final(self).peers().dom() == old(self).peers().dom(),
            old(self).peers().dom().contains(name@) ==> final(self).peers()[name@].connected,
            old(self).peers().dom().contains(name@) ==> final(self).peers()[name@].address == old(self).peers()[name@].address,
            forall|k: Seq<char>| k != name@ && #[trigger] old(self).peers().dom().contains(k) ==> final(self).peers()[k] == old(self).peers()[k],
            final(self).reported_all_connected() == old(self).reported_all_connected(),
            final(self).node_name() == old(self).node_name(),
    {
        let key = name.to_owned();
        match self.find(&key) {
            Some(i) => {
                proof {
                    lemma_index_of(self.peers@, i as int);
                }
                let ghost before = self.peers@;
                let p = Peer { name: key, address: self.peers[i].address.clone(), connected: true };
                proof {
                    Self::lemma_replace(before, i as int, p);
                }
                self.peers.set(i, p);
            },
            None => {},
        }
        proof {
            lemma_marking_connected(old(self).peers(), name@);
        }
    }

    /// Reports full connection once: returns `false` when it was reported
    /// before; otherwise records and returns whether every peer is now
    /// connected.
    pub fn all_newly_connected(&mut self) -> (r: bool)
        requires
            old(self).wf(),
        ensures
            final(self).wf(),
            final(self).peers() == old(self).peers(),
            final(self).node_name() == old(self).node_name(),
            r == (!old(self).reported_all_connected() && every_peer_connected(old(self).peers())),
            final(self).reported_all_connected() == (old(self).reported_all_connected() || every_peer_connected(old(self).peers())),
    {
        if self.all_connected {
            return false;
        }
        let mut i: usize = 0;
        let mut all = true;
        while i < self.peers.len()
            invariant
                i <= self.peers@.len(),
                all == (forall|j: int| 0 <= j < i ==> #[trigger] self.peers@[j].connected),
            decreases self.peers@.len() - i,
        {
            if !self.peers[i].connected {
                all = false;
            }
            i = i + 1;
        }
        proof {
            let s = self.peers@;
            if all {
                assert forall|k: Seq<char>| peers_map(s).dom().contains(k) implies #[trigger] peers_map(s)[k].connected by {
                    let j = choose|j: int| 0 <= j < s.len() && #[trigger] s[j].name@ == k;
                    lemma_index_of(s, j);
                }
            } else {
                let j = choose|j: int| 0 <= j < s.len() && !#[trigger] s[j].connected;
                lemma_index_of(s, j);
                assert(!peers_map(s)[s[j].name@].connected);
            }
        }
        self.all_connected = all;
        all
    }

    /// Whether full connection has been reported.
    pub fn is_all_connected(&self) -> (r: bool)
        ensures
            r == self.reported_all_connected(),
    {
        self.all_connected
    }

    /// The names of all peers, each once.
    pub fn peer_names(&self) -> (names: Vec<String>)
        requires
            self.wf(),
        ensures
            name_set(names@) == self.peers().dom(),
            distinct_names(names@),
    {
        let names = self.select_names(false);
        assert(name_set(names@) =~= self.peers().dom());
        names
    }

    /// The names of the peers that are not connected, each once.
    pub fn unconnected_peers(&self) -> (names: Vec<String>)
        requires
            self.wf(),
        ensures
            name_set(names@) == self.peers().dom().filter(|k: Seq<char>| !self.peers()[k].connected),
            distinct_names(names@),
    {
        let names = self.select_names(true);
        assert(name_set(names@) =~= self.peers().dom().filter(|k: Seq<char>| !self.peers()[k].connected));
        names
    }

    /// The names of the peers, or with `only_unconnected` of those not
    /// connected, in storage order.
    fn select_names(&self, only_unconnected: bool) -> (names: Vec<String>)
        requires
            self.wf(),
        ensures
            name_set(names@) =~= Set::new(|k: Seq<char>| self.peers().dom().contains(k) && (only_unconnected ==> !self.peers()[k].connected)),
            distinct_names(names@),
    {
        let ghost s = self.peers@;
        let mut names: Vec<String> = Vec::new();
        let ghost mut from: Seq<int> = Seq::empty();
        let mut i: usize = 0;
        while i < self.peers.len()
            invariant
                s == self.peers@,
                names_distinct(s),
                i <= s.len(),
                from.len() == names@.len(),
                forall|a: int| 0 <= a < from.len() ==> 0 <= #[trigger] from[a] < i && names@[a]@ == s[from[a]].name@
                    && (only_unconnected ==> !s[from[a]].connected),
                forall|a: int, b: int| 0 <= a < b < from.len() ==> #[trigger] from[a] < #[trigger] from[b],
                forall|j: int| 0 <= j < i && (only_unconnected ==> !s[j].connected) ==> exists|a: int| 0 <= a < from.len() && #[trigger] from[a] == j,
            decreases s.len() - i,
        {
            let ghost old_from = from;
            if !only_unconnected || !self.peers[i].connected {
                names.push(self.peers[i].name.clone());
                proof {
                    from = from.push(i as int);
                    assert(from[from.len() - 1] == i as int);
                }
            }
            proof {
                assert forall|j: int| 0 <= j < i + 1 && (only_unconnected ==> !s[j].connected) implies exists|a: int| 0 <= a < from.len() && #[trigger] from[a] == j by {
                    if j < i {
                        let a = choose|a: int| 0 <= a < old_from.len() && #[trigger] old_from[a] == j;
                        assert(from[a] == j);
                    } else {
                        assert(from[from.len() - 1] == j);
                    }
                }
            }
            i = i + 1;
        }
        proof {
            assert forall|k: Seq<char>| (peers_map(s).dom().contains(k) && (only_unconnected ==> !peers_map(s)[k].connected)) implies exists|a: int| 0 <= a < names@.len() && #[trigger] names@[a]@ == k by {
                let j = choose|j: int| 0 <= j < s.len() && #[trigger] s[j].name@ == k;
                lemma_index_of(s, j);
                let a = choose|a: int| 0 <= a < from.len() && #[trigger] from[a] == j;
                assert(names@[a]@ == k);
            }
            assert forall|k: Seq<char>| (exists|a: int| 0 <= a < names@.len() && #[trigger] names@[a]@ == k) implies (peers_map(s).dom().contains(k) && (only_unconnected ==> !peers_map(s)[k].connected)) by {
                let a = choose|a: int| 0 <= a < names@.len() && #[trigger] names@[a]@ == k;
                lemma_index_of(s, from[a]);
            }
            assert forall|a: int, b: int| 0 <= a < names@.len() && 0 <= b < names@.len() && a != b implies #[trigger] names@[a]@ != #[trigger] names@[b]@ by {
                if a < b {
                    assert(from[a] < from[b]);
                } else {
                    assert(from[b] < from[a]);
                }
                assert(s[from[a]].name@ != s[from[b]].name@);
            }
        }
        names
    }
}

/// Marking a known peer connected leaves it connected at the same address,
/// whatever it was before, and touches no other peer; marking it again
/// changes nothing.  An unknown name changes nothing.
pub proof fn lemma_marking_connected(m: Map<Seq<char>, PeerView>, name: Seq<char>)
    ensures
        with_connected(m, name).dom() == m.dom(),
        m.dom().contains(name) ==> with_connected(m, name)[name].connected,
        m.dom().contains(name) ==> with_connected(m, name)[name].address == m[name].address,
        forall|k: Seq<char>| k != name && #[trigger] m.dom().contains(k) ==> with_connected(m, name)[k] == m[k],
        with_connected(with_connected(m, name), name) == with_connected(m, name),
        !m.dom().contains(name) ==> with_connected(m, name) == m,
{
    if m.dom().contains(name) {
        assert(with_connected(m, name).dom() =~= m.dom());
        assert(with_connected(with_connected(m, name), name) =~= with_connected(m, name));
    }
}

/// Full connection is reported at most once: once `all_newly_connected`
/// has returned `true`, every later call returns `false`, whatever the
/// peers then are.
pub proof fn lemma_full_connection_reported_once(
    reported: bool,
    peers: Map<Seq<char>, PeerView>,
    later_peers: Map<Seq<char>, PeerView>,
)
    requires
        !reported && every_peer_connected(peers),
    ensures
        !(!(reported || every_peer_connected(peers)) && every_peer_connected(later_peers)),
{
}

/// Recording an address twice changes nothing the second time: right after
/// `update_address(name, address)` the map holds `address` for `name`.
pub proof fn lemma_update_address_idempotent(m: Map<Seq<char>, PeerView>, name: Seq<char>, address: Seq<char>)
    ensures
        with_address(m, name, address).dom().contains(name),
        with_address(m, name, address)[name].address == address,
        !address_changes(with_address(m, name, address), name, address),
{
}

} // verus!
