//! The registry of discovered peers and the admission state machine that
//! merges discovery facts from every source into it.

use vstd::prelude::*;
use crate::text::{same_text, texts};

verus! {

/// Where a discovered peer stands on its way into the gossip mesh.
#[derive(PartialEq, Eq, Structural, Clone, Copy, Debug)]
pub enum PeerState {
    /// Known, not dialed yet.
    Candidate,
    /// A dial was issued.
    Dialing,
    /// Connected and registered as an explicit member of the mesh.
    Meshed,
    /// The dial failed or the connection dropped; waits for rediscovery.
    Stale,
}

/// What the registry knows of one peer.
pub ghost struct PeerView {
    pub addrs: Set<Seq<char>>,
    pub state: PeerState,
}

/// One peer in the registry: its identifier, the addresses known for it,
/// and its admission state.
pub struct DiscoveredPeer {
    pub id: String,
    pub addrs: Vec<String>,
    pub state: PeerState,
}

impl DiscoveredPeer {
    /// What the registry knows of this peer.
    pub open spec fn view_of(&self) -> PeerView {
        PeerView { addrs: texts(self.addrs@).to_set(), state: self.state }
    }
}

/// The registry as a map from identifier to what is known of the peer; the
/// later of two entries for one identifier wins.
pub open spec fn peers_map(s: Seq<DiscoveredPeer>) -> Map<Seq<char>, PeerView>
    decreases s.len(),
{
    if s.len() == 0 {
        Map::empty()
    } else {
        peers_map(s.drop_last()).insert(s.last().id@, s.last().view_of())
    }
}

/// No identifier stands twice.
pub open spec fn distinct_ids(s: Seq<DiscoveredPeer>) -> bool {
    forall|i: int, j: int| 0 <= i < s.len() && 0 <= j < s.len() && i != j ==> s[i].id@ != s[j].id@
}

/// `addrs` with `addr` added, if there is one.
pub open spec fn merged(addrs: Set<Seq<char>>, addr: Option<Seq<char>>) -> Set<Seq<char>> {
    match addr {
        Some(a) => addrs.insert(a),
        None => addrs,
    }
}

/// Whether a peer in state `st` may be dialed on the next signal about it.
pub open spec fn awaits_dial(st: PeerState) -> bool {
    st == PeerState::Candidate || st == PeerState::Stale
}

/// The registry after a discovery fact about `id`, with an address or without.
pub open spec fn observe_next(
    reg: Map<Seq<char>, PeerView>,
    local: Seq<char>,
    id: Seq<char>,
    addr: Option<Seq<char>>,
) -> Map<Seq<char>, PeerView> {
    if id == local {
        reg
    } else if !reg.contains_key(id) {
        reg.insert(id, PeerView { addrs: merged(Set::empty(), addr), state: PeerState::Candidate })
    } else {
        let st = if awaits_dial(reg[id].state) { PeerState::Dialing } else { reg[id].state };
        reg.insert(id, PeerView { addrs: merged(reg[id].addrs, addr), state: st })
    }
}

/// Whether a discovery fact about `id` issues a dial.
pub open spec fn observe_dials(reg: Map<Seq<char>, PeerView>, local: Seq<char>, id: Seq<char>) -> bool {
    id != local && reg.contains_key(id) && awaits_dial(reg[id].state)
}

/// The registry after a request to dial `id` at `addr` (a bootstrap entry).
pub open spec fn dial_next(
    reg: Map<Seq<char>, PeerView>,
    local: Seq<char>,
    id: Seq<char>,
    addr: Seq<char>,
) -> Map<Seq<char>, PeerView> {
    if id == local {
        reg
    } else if !reg.contains_key(id) {
        reg.insert(id, PeerView { addrs: Set::empty().insert(addr), state: PeerState::Dialing })
    } else {
        let st = if awaits_dial(reg[id].state) { PeerState::Dialing } else { reg[id].state };
        reg.insert(id, PeerView { addrs: reg[id].addrs.insert(addr), state: st })
    }
}

/// Whether a request to dial `id` issues a dial.
pub open spec fn dial_issued(reg: Map<Seq<char>, PeerView>, local: Seq<char>, id: Seq<char>) -> bool {
    id != local && !(reg.contains_key(id) && !awaits_dial(reg[id].state))
}

/// The registry after a connection to `id` was established.
pub open spec fn connect_next(
    reg: Map<Seq<char>, PeerView>,
    local: Seq<char>,
    id: Seq<char>,
) -> Map<Seq<char>, PeerView> {
    if id == local {
        reg
    } else {
        let addrs = if reg.contains_key(id) { reg[id].addrs } else { Set::empty() };
        reg.insert(id, PeerView { addrs, state: PeerState::Meshed })
    }
}

/// The registry after a dial to `id` failed or its last connection dropped.
pub open spec fn lose_next(reg: Map<Seq<char>, PeerView>, id: Seq<char>) -> Map<Seq<char>, PeerView> {
    if reg.contains_key(id) && !awaits_dial(reg[id].state) {
        reg.insert(id, PeerView { addrs: reg[id].addrs, state: PeerState::Stale })
    } else {
        reg
    }
}

proof fn lemma_map_dom(s: Seq<DiscoveredPeer>, id: Seq<char>)
    ensures
        peers_map(s).contains_key(id) <==> exists|i: int| 0 <= i < s.len() && s[i].id@ == id,
    decreases s.len(),
{
    if s.len() > 0 {
        let t = s.drop_last();
        lemma_map_dom(t, id);
        if peers_map(s).contains_key(id) {
            if id == s.last().id@ {
                assert(s[s.len() - 1].id@ == id);
            } else {
                let i = choose|i: int| 0 <= i < t.len() && t[i].id@ == id;
                assert(s[i] == t[i]);
            }
        }
        if exists|i: int| 0 <= i < s.len() && s[i].id@ == id {
            let i = choose|i: int| 0 <= i < s.len() && s[i].id@ == id;
            if i < t.len() {
                assert(t[i] == s[i]);
            }
        }
    }
}

proof fn lemma_map_at(s: Seq<DiscoveredPeer>, i: int)
    requires
        distinct_ids(s),
        0 <= i < s.len(),
    ensures
        peers_map(s).contains_key(s[i].id@),
        peers_map(s)[s[i].id@] == s[i].view_of(),
    decreases s.len(),
{
    let t = s.drop_last();
    if i < s.len() - 1 {
        assert(t[i] == s[i]);
        assert(distinct_ids(t)) by {
            assert forall|a: int, b: int|
                0 <= a < t.len() && 0 <= b < t.len() && a != b implies t[a].id@ != t[b].id@ by {
                assert(t[a] == s[a] && t[b] == s[b]);
            }
        }
        lemma_map_at(t, i);
        assert(s[i].id@ != s[s.len() - 1].id@);
    }
}

proof fn lemma_map_update(s: Seq<DiscoveredPeer>, i: int, p: DiscoveredPeer)
    requires
        distinct_ids(s),
        0 <= i < s.len(),
        p.id@ == s[i].id@,
    ensures
        peers_map(s.update(i, p)) == peers_map(s).insert(p.id@, p.view_of()),
        distinct_ids(s.update(i, p)),
    decreases s.len(),
{
    let u = s.update(i, p);
    let t = s.drop_last();
    assert(distinct_ids(u)) by {
        assert forall|a: int, b: int| 0 <= a < u.len() && 0 <= b < u.len() && a != b implies u[a].id@ != u[b].id@ by {
            if a == i {
                assert(s[b].id@ != s[i].id@);
            } else if b == i {
                assert(s[a].id@ != s[i].id@);
            }
        }
    }
    if i == s.len() - 1 {
        assert(u.drop_last() =~= t);
        assert(peers_map(u) =~= peers_map(s).insert(p.id@, p.view_of()));
    } else {
        assert(distinct_ids(t)) by {
            assert forall|a: int, b: int|
                0 <= a < t.len() && 0 <= b < t.len() && a != b implies t[a].id@ != t[b].id@ by {
                assert(t[a] == s[a] && t[b] == s[b]);
            }
        }
        assert(t[i] == s[i]);
        lemma_map_update(t, i, p);
        assert(u.drop_last() =~= t.update(i, p));
        assert(u.last() == s.last());
        assert(s.last().id@ != p.id@);
        assert(peers_map(u) =~= peers_map(s).insert(p.id@, p.view_of()));
    }
}

proof fn lemma_push_fresh(s: Seq<DiscoveredPeer>, p: DiscoveredPeer)
    requires
        distinct_ids(s),
        !peers_map(s).contains_key(p.id@),
    ensures
        distinct_ids(s.push(p)),
        peers_map(s.push(p)) == peers_map(s).insert(p.id@, p.view_of()),
{
    let u = s.push(p);
    assert(u.drop_last() =~= s);
    assert forall|a: int, b: int| 0 <= a < u.len() && 0 <= b < u.len() && a != b implies u[a].id@ != u[b].id@ by {
        if a == s.len() {
            lemma_map_dom(s, p.id@);
            assert(u[b] == s[b]);
        } else if b == s.len() {
            lemma_map_dom(s, p.id@);
            assert(u[a] == s[a]);
        } else {
            assert(u[a] == s[a] && u[b] == s[b]);
        }
    }
}

/// Adds `a` to the known addresses, once.
fn merge_address(addrs: &mut Vec<String>, a: &str)
    ensures
        texts(final(addrs)@).to_set() == texts(old(addrs)@).to_set().insert(a@),
{
    let mut i: usize = 0;
    while i < addrs.len()
        invariant
            i <= addrs.len(),
            forall|k: int| 0 <= k < i ==> addrs@[k]@ != a@,
        decreases addrs.len() - i,
    {
        if same_text(addrs[i].as_str(), a) {
            proof {
                assert(texts(addrs@)[i as int] == a@);
                assert(texts(addrs@).to_set().insert(a@) =~= texts(addrs@).to_set());
            }
            return;
        }
        i = i + 1;
    }
    let ghost before = addrs@;
    addrs.push(String::from_str(a));
    proof {
        assert(texts(addrs@) =~= texts(before).push(a@));
        assert(texts(addrs@).to_set() =~= texts(before).to_set().insert(a@)) by {
            assert forall|x: Seq<char>| texts(addrs@).contains(x) implies texts(before).contains(x) || x == a@ by {
                let k = choose|k: int| 0 <= k < texts(addrs@).len() && texts(addrs@)[k] == x;
                if k < before.len() {
                    assert(texts(before)[k] == x);
                }
            }
            assert forall|x: Seq<char>| texts(before).contains(x) implies texts(addrs@).contains(x) by {
                let k = choose|k: int| 0 <= k < texts(before).len() && texts(before)[k] == x;
                assert(texts(addrs@)[k] == x);
            }
            assert(texts(addrs@)[before.len() as int] == a@);
        }
    }
}

/// The known addresses: none, or the one given.
fn initial_addresses(addr: Option<&str>) -> (r: Vec<String>)
    ensures
        texts(r@).to_set() == merged(Set::empty(), match addr { Some(a) => Some(a@), None => None }),
{
    let mut r: Vec<String> = Vec::new();
    assert(texts(r@).to_set() =~= Set::empty());
    match addr {
        Some(a) => {
            merge_address(&mut r, a);
        },
        None => {},
    }
    r
}

/// The view of an optional address.
pub open spec fn opt_text(addr: Option<&str>) -> Option<Seq<char>> {
    match addr {
        Some(a) => Some(a@),
        None => None,
    }
}

/// The peers discovered by the local node, with their admission states.
pub struct Registry {
    local: String,
    peers: Vec<DiscoveredPeer>,
}

impl View for Registry {
    type V = Map<Seq<char>, PeerView>;

    closed spec fn view(&self) -> Map<Seq<char>, PeerView> {
        peers_map(self.peers@)
    }
}

impl Registry {
    /// The identifier of the local node.
    pub closed spec fn local_id(&self) -> Seq<char> {
        self.local@
    }

    /// One entry per identifier, and none for the local node.
    pub closed spec fn wf(&self) -> bool {
        &&& distinct_ids(self.peers@)
        &&& !peers_map(self.peers@).contains_key(self.local@)
    }

    /// An empty registry of the node `local`.
    pub fn new(local: String) -> (r: Registry)
        ensures
            r.wf(),
            r@ == Map::<Seq<char>, PeerView>::empty(),
            r.local_id() == local@,
    {
        Registry { local, peers: Vec::new() }
    }

    /// The identifier of the local node.
    pub fn local(&self) -> (r: &str)
        ensures
            r@ == self.local_id(),
    {
        self.local.as_str()
    }

    /// The number of peers.
    pub fn len(&self) -> (r: usize)
        requires
            self.wf(),
        ensures
            r == self@.dom().len(),
    {
        proof {
            self.lemma_dom_len();
        }
        self.peers.len()
    }

    proof fn lemma_dom_len(&self)
        requires
            self.wf(),
        ensures
            self@.dom().len() == self.peers@.len(),
            self@.dom() == texts_of_ids(self.peers@).to_set(),
    {
        let ids = texts_of_ids(self.peers@);
        assert forall|x: Seq<char>| self@.dom().contains(x) <==> ids.to_set().contains(x) by {
            lemma_map_dom(self.peers@, x);
            if self@.dom().contains(x) {
                let i = choose|i: int| 0 <= i < self.peers@.len() && self.peers@[i].id@ == x;
                assert(ids[i] == x);
            }
            if ids.to_set().contains(x) {
                let i = choose|i: int| 0 <= i < ids.len() && ids[i] == x;
                assert(self.peers@[i].id@ == x);
            }
        }
        assert(self@.dom() =~= ids.to_set());
        assert(ids.no_duplicates()) by {
            assert forall|a: int, b: int|
                0 <= a < ids.len() && 0 <= b < ids.len() && a != b implies ids[a] != ids[b] by {}
        }
        ids.unique_seq_to_set();
    }

    fn find(&self, id: &str) -> (r: Option<usize>)
        requires
            self.wf(),
        ensures
            r is Some <==> self@.contains_key(id@),
            r matches Some(i) ==> i < self.peers@.len() && self.peers@[i as int].id@ == id@,
    {
        let mut i: usize = 0;
        while i < self.peers.len()
            invariant
                i <= self.peers@.len(),
                forall|k: int| 0 <= k < i ==> self.peers@[k].id@ != id@,
            decreases self.peers@.len() - i,
        {
            if same_text(self.peers[i].id.as_str(), id) {
                proof {
                    lemma_map_dom(self.peers@, id@);
                }
                return Some(i);
            }
            i = i + 1;
        }
        proof {
            lemma_map_dom(self.peers@, id@);
        }
        None
    }

    /// The state of the peer `id`, if it is known.
    pub fn state_of(&self, id: &str) -> (r: Option<PeerState>)
        requires
            self.wf(),
        ensures
            r == (if self@.contains_key(id@) { Some(self@[id@].state) } else { None::<PeerState> }),
    {
        match self.find(id) {
            Some(i) => {
                proof {
                    lemma_map_at(self.peers@, i as int);
                }
                Some(self.peers[i].state)
            },
            None => None,
        }
    }

    /// The addresses known for the peer `id`; none where it is unknown.
    pub fn addresses_of(&self, id: &str) -> (r: Vec<String>)
        requires
            self.wf(),
        ensures
            self@.contains_key(id@) ==> texts(r@).to_set() == self@[id@].addrs,
            !self@.contains_key(id@) ==> r@.len() == 0,
    {
        match self.find(id) {
            Some(i) => {
                proof {
                    lemma_map_at(self.peers@, i as int);
                }
                let mut r: Vec<String> = Vec::new();
                let addrs = &self.peers[i].addrs;
                let mut k: usize = 0;
                while k < addrs.len()
                    invariant
                        k <= addrs@.len(),
                        r@.len() == k,
                        texts(r@) == texts(addrs@.subrange(0, k as int)),
                    decreases addrs@.len() - k,
                {
                    let ghost before = r@;
                    r.push(addrs[k].clone());
                    proof {
                        let sub = addrs@.subrange(0, k as int + 1);
                        assert forall|j: int| 0 <= j < r@.len() implies #[trigger] texts(r@)[j] == texts(sub)[j] by {
                            if j < k {
                                assert(texts(before)[j] == texts(addrs@.subrange(0, k as int))[j]);
                            }
                        }
                        assert(texts(r@) =~= texts(sub));
                    }
                    k = k + 1;
                }
                assert(addrs@.subrange(0, addrs@.len() as int) =~= addrs@);
                r
            },
            None => Vec::new(),
        }
    }

    /// The identifiers of all known peers.
    pub fn ids(&self) -> (r: Vec<String>)
        requires
            self.wf(),
        ensures
            texts(r@).to_set() == self@.dom(),
            texts(r@).no_duplicates(),
    {
        let mut r: Vec<String> = Vec::new();
        let mut k: usize = 0;
        while k < self.peers.len()
            invariant
                k <= self.peers@.len(),
                r@.len() == k,
                texts(r@) == texts_of_ids(self.peers@.subrange(0, k as int)),
            decreases self.peers@.len() - k,
        {
            let ghost before = r@;
            r.push(self.peers[k].id.clone());
            proof {
                let sub = self.peers@.subrange(0, k as int + 1);
                assert forall|j: int| 0 <= j < r@.len() implies #[trigger] texts(r@)[j] == texts_of_ids(sub)[j] by {
                    if j < k {
                        assert(texts(before)[j] == texts_of_ids(self.peers@.subrange(0, k as int))[j]);
                    }
                }
                assert(texts(r@) =~= texts_of_ids(sub));
            }
            k = k + 1;
        }
        assert(self.peers@.subrange(0, self.peers@.len() as int) =~= self.peers@);
        proof {
            self.lemma_dom_len();
            let ids = texts_of_ids(self.peers@);
            assert forall|a: int, b: int|
                0 <= a < ids.len() && 0 <= b < ids.len() && a != b implies ids[a] != ids[b] by {}
        }
        r
    }

    /// A discovery fact about `id`: a new peer becomes a candidate; a
    /// candidate or stale one is dialed; one being dialed or in the mesh only
    /// learns the address. Returns whether a dial is to be issued.
    pub fn observe(&mut self, id: &str, addr: Option<&str>) -> (dial: bool)
        requires
            old(self).wf(),
        ensures
            final(self).wf(),
            final(self).local_id() == old(self).local_id(),
            final(self)@ == observe_next(old(self)@, old(self).local_id(), id@, opt_text(addr)),
            dial == observe_dials(old(self)@, old(self).local_id(), id@),
    {
        if same_text(id, self.local.as_str()) {
            return false;
        }
        match self.find(id) {
            None => {
                let p = DiscoveredPeer {
                    id: String::from_str(id),
                    addrs: initial_addresses(addr),
                    state: PeerState::Candidate,
                };
                proof {
                    lemma_push_fresh(self.peers@, p);
                }
                self.peers.push(p);
                proof {
                    assert(p.view_of()
                        == PeerView { addrs: merged(Set::empty(), opt_text(addr)), state: PeerState::Candidate });
                }
                false
            },
            Some(i) => {
                proof {
                    lemma_map_at(self.peers@, i as int);
                }
                let ghost before = self.peers@;
                let st = self.peers[i].state;
                let dial = st == PeerState::Candidate || st == PeerState::Stale;
                match addr {
                    Some(a) => merge_address(&mut self.peers[i].addrs, a),
                    None => {},
                }
                if dial {
                    self.peers[i].state = PeerState::Dialing;
                }
                proof {
                    assert(self.peers@ == before.update(i as int, self.peers@[i as int]));
                    lemma_map_update(before, i as int, self.peers@[i as int]);
                }
                dial
            },
        }
    }

    /// A request to dial `id` at `addr`, as for a bootstrap entry: issued
    /// unless a dial is already under way or the peer is in the mesh, where
    /// the address is only learned. Returns whether a dial is to be issued.
    pub fn request_dial(&mut self, id: &str, addr: &str) -> (dial: bool)
        requires
            old(self).wf(),
        ensures
            final(self).wf(),
            final(self).local_id() == old(self).local_id(),
            final(self)@ == dial_next(old(self)@, old(self).local_id(), id@, addr@),
            dial == dial_issued(old(self)@, old(self).local_id(), id@),
    {
        if same_text(id, self.local.as_str()) {
            return false;
        }
        match self.find(id) {
            None => {
                let p = DiscoveredPeer {
                    id: String::from_str(id),
                    addrs: initial_addresses(Some(addr)),
                    state: PeerState::Dialing,
                };
                proof {
                    lemma_push_fresh(self.peers@, p);
                }
                self.peers.push(p);
                true
            },
            Some(i) => {
                proof {
                    lemma_map_at(self.peers@, i as int);
                }
                let ghost before = self.peers@;
                let st = self.peers[i].state;
                let dial = st == PeerState::Candidate || st == PeerState::Stale;
                merge_address(&mut self.peers[i].addrs, addr);
                if dial {
                    self.peers[i].state = PeerState::Dialing;
                }
                proof {
                    assert(self.peers@ == before.update(i as int, self.peers@[i as int]));
                    lemma_map_update(before, i as int, self.peers@[i as int]);
                }
                dial
            },
        }
    }

    /// A connection to `id` was established: the peer enters the mesh.
    /// Returns whether it is to be registered as an explicit mesh member,
    /// which is so for every peer but the local node.
    pub fn connected(&mut self, id: &str) -> (admitted: bool)
        requires
            old(self).wf(),
        ensures
            final(self).wf(),
            final(self).local_id() == old(self).local_id(),
            final(self)@ == connect_next(old(self)@, old(self).local_id(), id@),
            admitted == (id@ != old(self).local_id()),
    {
        if same_text(id, self.local.as_str()) {
            return false;
        }
        match self.find(id) {
            None => {
                let p = DiscoveredPeer { id: String::from_str(id), addrs: Vec::new(), state: PeerState::Meshed };
                proof {
                    lemma_push_fresh(self.peers@, p);
                    assert(texts(p.addrs@).to_set() =~= Set::empty());
                }
                self.peers.push(p);
                true
            },
            Some(i) => {
                proof {
                    lemma_map_at(self.peers@, i as int);
                }
                let ghost before = self.peers@;
                self.peers[i].state = PeerState::Meshed;
                proof {
                    assert(self.peers@ == before.update(i as int, self.peers@[i as int]));
                    lemma_map_update(before, i as int, self.peers@[i as int]);
                }
                true
            },
        }
    }

    /// A dial to `id` failed or its last connection dropped: a peer being
    /// dialed or in the mesh becomes stale. No retry is scheduled.
    pub fn lost(&mut self, id: &str)
        requires
            old(self).wf(),
        ensures
            final(self).wf(),
            final(self).local_id() == old(self).local_id(),
            final(self)@ == lose_next(old(self)@, id@),
    {
        match self.find(id) {
            None => {},
            Some(i) => {
                proof {
                    lemma_map_at(self.peers@, i as int);
                }
                let st = self.peers[i].state;
                if st == PeerState::Dialing || st == PeerState::Meshed {
                    let ghost before = self.peers@;
                    self.peers[i].state = PeerState::Stale;
                    proof {
                        assert(self.peers@ == before.update(i as int, self.peers@[i as int]));
                        lemma_map_update(before, i as int, self.peers@[i as int]);
                    }
                }
            },
        }
    }
}

/// The registry never holds the local node: after any sequence of calls,
/// starting from a new registry, the local identifier is not among its keys.
pub proof fn lemma_self_excluded(r: &Registry)
    requires
        r.wf(),
    ensures
        !r@.contains_key(r.local_id()),
{
}

/// Once a peer is in the mesh, a further discovery fact or bootstrap dial
/// request about it leaves it in the mesh and issues no dial.
pub proof fn lemma_meshed_stays(
    reg: Map<Seq<char>, PeerView>,
    local: Seq<char>,
    id: Seq<char>,
    addr: Option<Seq<char>>,
    dial_addr: Seq<char>,
)
    requires
        reg.contains_key(id),
        reg[id].state == PeerState::Meshed,
    ensures
        observe_next(reg, local, id, addr)[id].state == PeerState::Meshed,
        !observe_dials(reg, local, id),
        dial_next(reg, local, id, dial_addr)[id].state == PeerState::Meshed,
        !dial_issued(reg, local, id),
{
}

/// The identifiers of a sequence of peers.
pub open spec fn texts_of_ids(s: Seq<DiscoveredPeer>) -> Seq<Seq<char>> {
    s.map_values(|p: DiscoveredPeer| p.id@)
}

} // verus!
