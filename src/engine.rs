//! The engine a node's event loop drives: one event in, the registry and
//! record state updated, the outbound operations for the host to perform out.

use vstd::prelude::*;
use crate::delivered::{lemma_delivery_idempotent, DeliveredSet};
use crate::events::{actions_view, Action, ActionView, Event, Timer};
use crate::record::{
    entry_owner, is_entry_text, lemma_record_round_trip, multiaddr_owner, parse_record, record_key,
    record_key_of, self_entries, AddressRecord,
};
use crate::registry::{
    connect_next, dial_issued, dial_next, lemma_meshed_stays, lemma_self_excluded, lose_next, observe_dials,
    observe_next, opt_text, PeerState, PeerView, Registry,
};
use crate::text::{decimal, decimal_text, is_entry, join_entries, same_text, split_entries, texts};

verus! {

/// A statically configured peer: its address and the identifier it embeds.
#[derive(Clone, Debug, PartialEq, Eq)]
pub struct BootstrapEntry {
    pub peer: String,
    pub address: String,
}

impl BootstrapEntry {
    /// The entry for a bootstrap address; none where the address names no owner.
    pub fn from_address(address: &str) -> (r: Option<BootstrapEntry>)
        ensures
            r is Some <==> multiaddr_owner(address@) is Some,
            r matches Some(e) ==> multiaddr_owner(address@) == Some(e.peer@) && e.address@ == address@,
    {
        match entry_owner(address) {
            Some(peer) => Some(BootstrapEntry { peer, address: String::from_str(address) }),
            None => None,
        }
    }
}

/// The (identifier, address) pairs of bootstrap entries.
pub open spec fn entries_view(v: Seq<BootstrapEntry>) -> Seq<(Seq<char>, Seq<char>)> {
    v.map_values(|e: BootstrapEntry| (e.peer@, e.address@))
}

/// The abstract state of an engine.
pub ghost struct EngineView {
    pub local: Seq<char>,
    pub name: Seq<char>,
    pub registry: Map<Seq<char>, PeerView>,
    pub bootstrap: Seq<(Seq<char>, Seq<char>)>,
    pub listen: Seq<Seq<char>>,
    pub external: Seq<Seq<char>>,
    pub delivered: Set<Seq<char>>,
}

/// The discovery and dissemination state of one node.
pub struct Engine {
    registry: Registry,
    name: String,
    bootstrap: Vec<BootstrapEntry>,
    listen: Vec<String>,
    external: Vec<String>,
    delivered: DeliveredSet,
}

impl View for Engine {
    type V = EngineView;

    closed spec fn view(&self) -> EngineView {
        EngineView {
            local: self.registry.local_id(),
            name: self.name@,
            registry: self.registry@,
            bootstrap: entries_view(self.bootstrap@),
            listen: texts(self.listen@),
            external: texts(self.external@),
            delivered: self.delivered@,
        }
    }
}

/// Every address in `s` can stand as a record entry.
pub open spec fn all_entries(s: Seq<Seq<char>>) -> bool {
    forall|k: int| 0 <= k < s.len() ==> is_entry(#[trigger] s[k])
}

/// `list` with `a` added at the end, where `a` can stand as a record entry
/// and is not in it yet.
pub open spec fn add_known(list: Seq<Seq<char>>, a: Seq<char>) -> Seq<Seq<char>> {
    if is_entry(a) && !list.contains(a) {
        list.push(a)
    } else {
        list
    }
}

/// The value of the self record of an engine in state `v`.
pub open spec fn self_record_value(v: EngineView) -> Seq<char> {
    join_entries(self_entries(v.listen + v.external, v.local))
}

/// The action that publishes the self record of an engine in state `v`.
pub open spec fn publish_action(v: EngineView) -> ActionView {
    ActionView::PutRecord { key: record_key(v.local), value: self_record_value(v) }
}

/// The heartbeat payload of the node `name`.
pub open spec fn heartbeat(name: Seq<char>) -> Seq<char> {
    "HELO FROM "@ + name
}


/// The actions of a discovery fact about `id`: the DHT learns the address,
/// and a dial is issued where the registry calls for one.
pub open spec fn fact_actions(
    reg: Map<Seq<char>, PeerView>,
    local: Seq<char>,
    id: Seq<char>,
    addr: Option<Seq<char>>,
) -> Seq<ActionView> {
    let add = match addr {
        Some(a) => if id != local {
            seq![ActionView::AddAddress { peer: id, address: a }]
        } else {
            Seq::empty()
        },
        None => Seq::empty(),
    };
    if observe_dials(reg, local, id) {
        add.push(ActionView::Dial { peer: id, address: addr })
    } else {
        add
    }
}

/// The actions of a request to dial `id` at `addr`.
pub open spec fn dial_actions(
    reg: Map<Seq<char>, PeerView>,
    local: Seq<char>,
    id: Seq<char>,
    addr: Seq<char>,
) -> Seq<ActionView> {
    if id == local {
        Seq::empty()
    } else if dial_issued(reg, local, id) {
        seq![
            ActionView::AddAddress { peer: id, address: addr },
            ActionView::Dial { peer: id, address: Some(addr) },
        ]
    } else {
        seq![ActionView::AddAddress { peer: id, address: addr }]
    }
}

/// The registry and the actions after requests to dial each entry in turn.
pub open spec fn dial_all(
    reg: Map<Seq<char>, PeerView>,
    local: Seq<char>,
    entries: Seq<(Seq<char>, Seq<char>)>,
) -> (Map<Seq<char>, PeerView>, Seq<ActionView>)
    decreases entries.len(),
{
    if entries.len() == 0 {
        (reg, Seq::empty())
    } else {
        let (r0, a0) = dial_all(reg, local, entries.drop_last());
        let (id, addr) = entries.last();
        (dial_next(r0, local, id, addr), a0 + dial_actions(r0, local, id, addr))
    }
}

/// The registry and the actions after one entry, whose embedded owner is
/// `owner`, of a record fetched under `key`: an address learned about that
/// owner, where the record is stored under the owner's own key; nothing
/// otherwise.
pub open spec fn entry_step(
    reg: Map<Seq<char>, PeerView>,
    local: Seq<char>,
    key: Seq<char>,
    entry: Seq<char>,
    owner: Option<Seq<char>>,
) -> (Map<Seq<char>, PeerView>, Seq<ActionView>) {
    match owner {
        Some(id) => if record_key(id) == key {
            (observe_next(reg, local, id, Some(entry)), fact_actions(reg, local, id, Some(entry)))
        } else {
            (reg, Seq::empty())
        },
        None => (reg, Seq::empty()),
    }
}

/// The registry and the actions after the entries of a record fetched under
/// `key`, in turn.
pub open spec fn learn_all(
    reg: Map<Seq<char>, PeerView>,
    local: Seq<char>,
    key: Seq<char>,
    entries: Seq<Seq<char>>,
) -> (Map<Seq<char>, PeerView>, Seq<ActionView>)
    decreases entries.len(),
{
    if entries.len() == 0 {
        (reg, Seq::empty())
    } else {
        let (r0, a0) = learn_all(reg, local, key, entries.drop_last());
        let e = entries.last();
        let (r1, a1) = entry_step(r0, local, key, e, multiaddr_owner(e));
        (r1, a0 + a1)
    }
}

/// The fetch of the record of a peer returned by a DHT query, unless it is
/// this node.
pub open spec fn found_fetch(local: Seq<char>, peer: Seq<char>) -> Seq<ActionView> {
    if peer != local {
        seq![ActionView::GetRecord { key: record_key(peer) }]
    } else {
        Seq::empty()
    }
}

/// The state `v` with another registry.
pub open spec fn with_registry(v: EngineView, reg: Map<Seq<char>, PeerView>) -> EngineView {
    EngineView { registry: reg, ..v }
}

/// The public TCP address at port `p` of the machine at `ip`.
pub open spec fn tcp_external(ip: Seq<char>, p: u16) -> Seq<char> {
    "/ip4/"@ + ip + "/tcp/"@ + decimal(p as nat)
}

/// The public QUIC address at port `p` of the machine at `ip`.
pub open spec fn quic_external(ip: Seq<char>, p: u16) -> Seq<char> {
    "/ip4/"@ + ip + "/udp/"@ + decimal(p as nat) + "/quic-v1"@
}

/// State and actions after the address `a` of this node became known:
/// the host announces it, and the DHT learns it as one of this node's.
pub open spec fn announce_spec(v: EngineView, a: Seq<char>) -> (EngineView, Seq<ActionView>) {
    (
        EngineView { external: add_known(v.external, a), ..v },
        seq![
            ActionView::AddExternalAddress { address: a },
            ActionView::AddAddress { peer: v.local, address: a },
        ],
    )
}

/// `announce_spec` where there is an address.
pub open spec fn opt_announce_spec(v: EngineView, a: Option<Seq<char>>) -> (EngineView, Seq<ActionView>) {
    match a {
        Some(a) => announce_spec(v, a),
        None => (v, Seq::empty()),
    }
}

/// The public TCP address, where the machine's address and the port are known.
pub open spec fn public_tcp(ip: Option<Seq<char>>, port: Option<u16>) -> Option<Seq<char>> {
    match (ip, port) {
        (Some(ip), Some(p)) => Some(tcp_external(ip, p)),
        _ => None,
    }
}

/// The public QUIC address, where the machine's address and the port are known.
pub open spec fn public_quic(ip: Option<Seq<char>>, port: Option<u16>) -> Option<Seq<char>> {
    match (ip, port) {
        (Some(ip), Some(p)) => Some(quic_external(ip, p)),
        _ => None,
    }
}

/// State and actions after a listener was bound at `address`: the public
/// addresses derived from it are announced, the self record is rebuilt and
/// published, the bootstrap entries are dialed and the DHT bootstrapped.
pub open spec fn listen_spec(
    v: EngineView,
    address: Seq<char>,
    tcp: Option<u16>,
    quic: Option<u16>,
    ip: Option<Seq<char>>,
) -> (EngineView, Seq<ActionView>) {
    let (v1, a1) = opt_announce_spec(v, public_tcp(ip, tcp));
    let (v2, a2) = opt_announce_spec(v1, public_quic(ip, quic));
    let v3 = EngineView { listen: add_known(v2.listen, address), ..v2 };
    let (reg, dials) = dial_all(v3.registry, v3.local, v3.bootstrap);
    (
        with_registry(v3, reg),
        a1 + a2 + seq![ActionView::AddAddress { peer: v.local, address }, publish_action(v3)] + dials
            + seq![ActionView::Bootstrap],
    )
}

/// State and actions after a peer reported the address `a` at which it sees
/// this node: announced, and where it is new the self record is republished.
pub open spec fn external_spec(v: EngineView, a: Seq<char>) -> (EngineView, Seq<ActionView>) {
    let (v1, a1) = announce_spec(v, a);
    if v1.external != v.external {
        (v1, a1.push(publish_action(v1)))
    } else {
        (v1, a1)
    }
}

/// State and actions after a payload arrived on the topic.
pub open spec fn message_spec(v: EngineView, payload: Seq<char>) -> (EngineView, Seq<ActionView>) {
    (EngineView { delivered: v.delivered.insert(payload), ..v }, seq![ActionView::Deliver { payload }])
}

/// State and actions after a timer other than the discovery scan elapsed.
pub open spec fn tick_spec(v: EngineView, t: Timer) -> (EngineView, Seq<ActionView>) {
    match t {
        Timer::Republish => (v, seq![publish_action(v)]),
        Timer::Rebootstrap => {
            let (reg, dials) = dial_all(v.registry, v.local, v.bootstrap);
            (with_registry(v, reg), dials.push(ActionView::Bootstrap))
        },
        Timer::Heartbeat => (v, seq![ActionView::Publish { payload: heartbeat(v.name) }]),
        Timer::DiscoveryScan => (v, Seq::empty()),
    }
}

/// The actions of a discovery scan: a closest-peers query, then a record
/// fetch for each known peer, each once.
pub open spec fn scan_actions_ok(v: EngineView, acts: Seq<ActionView>) -> bool {
    &&& acts.len() == v.registry.dom().len() + 1
    &&& acts[0] == ActionView::GetClosestPeers
    &&& acts.drop_first().to_set()
        == v.registry.dom().map(|id: Seq<char>| ActionView::GetRecord { key: record_key(id) })
}

fn emit(out: &mut Vec<Action>, a: Action)
    ensures
        actions_view(final(out)@) == actions_view(old(out)@).push(a@),
        final(out)@.len() == old(out)@.len() + 1,
{
    let ghost before = out@;
    out.push(a);
    assert(actions_view(out@) =~= actions_view(before).push(a@));
}

impl Engine {
    /// The registry, the delivered set and the address lists are well formed.
    pub closed spec fn wf(&self) -> bool {
        &&& self.registry.wf()
        &&& self.delivered.wf()
        &&& all_entries(texts(self.listen@))
        &&& all_entries(texts(self.external@))
    }

    /// An engine for the node `local`, named `name`, with bootstrap entries.
    pub fn with_entries(local: String, name: String, bootstrap: Vec<BootstrapEntry>) -> (r: Engine)
        ensures
            r.wf(),
            r@ == (EngineView {
                local: local@,
                name: name@,
                registry: Map::empty(),
                bootstrap: entries_view(bootstrap@),
                listen: Seq::empty(),
                external: Seq::empty(),
                delivered: Set::empty(),
            }),
    {
        let r = Engine {
            registry: Registry::new(local),
            name,
            bootstrap,
            listen: Vec::new(),
            external: Vec::new(),
            delivered: DeliveredSet::new(),
        };
        assert(texts(r.listen@) =~= Seq::empty());
        assert(texts(r.external@) =~= Seq::empty());
        r
    }

    /// The identifier of the local node.
    pub fn local(&self) -> (r: &str)
        ensures
            r@ == self@.local,
    {
        self.registry.local()
    }

    /// The registry of discovered peers.
    pub fn registry(&self) -> (r: &Registry)
        requires
            self.wf(),
        ensures
            r@ == self@.registry,
            r.local_id() == self@.local,
            r.wf(),
    {
        &self.registry
    }

    /// The payloads delivered to this node.
    pub fn delivered(&self) -> (r: &DeliveredSet)
        requires
            self.wf(),
        ensures
            r@ == self@.delivered,
            r.wf(),
    {
        &self.delivered
    }

    /// The self record over the addresses known now.
    pub fn self_record(&self) -> (r: AddressRecord)
        ensures
            r.owner@ == self@.local,
            texts(r.entries@) == self_entries(self@.listen + self@.external, self@.local),
            r.wf(),
    {
        let mut addrs: Vec<String> = Vec::new();
        let mut i: usize = 0;
        while i < self.listen.len()
            invariant
                i <= self.listen@.len(),
                addrs@.len() == i,
                texts(addrs@) == texts(self.listen@.subrange(0, i as int)),
            decreases self.listen@.len() - i,
        {
            let ghost before = addrs@;
            addrs.push(self.listen[i].clone());
            proof {
                let sub = self.listen@.subrange(0, i as int + 1);
                assert forall|j: int| 0 <= j < addrs@.len() implies #[trigger] texts(addrs@)[j] == texts(sub)[j] by {
                    if j < i {
                        assert(texts(before)[j] == texts(self.listen@.subrange(0, i as int))[j]);
                    }
                }
                assert(texts(addrs@) =~= texts(sub));
            }
            i = i + 1;
        }
        let mut k: usize = 0;
        while k < self.external.len()
            invariant
                i == self.listen@.len(),
                k <= self.external@.len(),
                addrs@.len() == i + k,
                texts(addrs@) == texts(self.listen@) + texts(self.external@.subrange(0, k as int)),
            decreases self.external@.len() - k,
        {
            let ghost before = addrs@;
            addrs.push(self.external[k].clone());
            proof {
                let target = texts(self.listen@) + texts(self.external@.subrange(0, k as int + 1));
                assert forall|j: int| 0 <= j < addrs@.len() implies #[trigger] texts(addrs@)[j] == target[j] by {
                    if j < i + k {
                        let prev = texts(self.listen@) + texts(self.external@.subrange(0, k as int));
                        assert(texts(before)[j] == prev[j]);
                    }
                }
                assert(texts(addrs@) =~= target);
            }
            k = k + 1;
        }
        assert(self.listen@.subrange(0, self.listen@.len() as int) =~= self.listen@);
        assert(self.external@.subrange(0, self.external@.len() as int) =~= self.external@);
        AddressRecord::build(self.registry.local(), &addrs)
    }
}

impl Engine {
    fn publish_record(&self, out: &mut Vec<Action>)
        ensures
            actions_view(final(out)@) == actions_view(old(out)@).push(publish_action(self@)),
    {
        let rec = self.self_record();
        emit(out, Action::PutRecord { key: rec.key(), value: rec.value() });
    }

    fn learn(&mut self, id: &str, addr: Option<&str>, out: &mut Vec<Action>)
        requires
            old(self).wf(),
        ensures
            final(self).wf(),
            final(self)@ == with_registry(
                old(self)@,
                observe_next(old(self)@.registry, old(self)@.local, id@, opt_text(addr)),
            ),
            actions_view(final(out)@) == actions_view(old(out)@)
                + fact_actions(old(self)@.registry, old(self)@.local, id@, opt_text(addr)),
    {
        let ghost out0 = actions_view(out@);
        let is_local = same_text(id, self.registry.local());
        match addr {
            Some(a) => {
                if !is_local {
                    emit(out, Action::AddAddress { peer: String::from_str(id), address: String::from_str(a) });
                }
            },
            None => {},
        }
        let dial = self.registry.observe(id, addr);
        if dial {
            let address = match addr {
                Some(a) => Some(String::from_str(a)),
                None => None,
            };
            emit(out, Action::Dial { peer: String::from_str(id), address });
        }
        proof {
            let fa = fact_actions(old(self)@.registry, old(self)@.local, id@, opt_text(addr));
            assert(actions_view(out@) =~= out0 + fa);
        }
    }

    fn dial_bootstrap(&mut self, out: &mut Vec<Action>)
        requires
            old(self).wf(),
        ensures
            final(self).wf(),
            final(self)@ == with_registry(
                old(self)@,
                dial_all(old(self)@.registry, old(self)@.local, old(self)@.bootstrap).0,
            ),
            actions_view(final(out)@) == actions_view(old(out)@)
                + dial_all(old(self)@.registry, old(self)@.local, old(self)@.bootstrap).1,
    {
        let ghost v0 = self@;
        let ghost out0 = actions_view(out@);
        let mut i: usize = 0;
        while i < self.bootstrap.len()
            invariant
                self.wf(),
                i <= self.bootstrap@.len(),
                self@ == with_registry(v0, dial_all(v0.registry, v0.local, v0.bootstrap.subrange(0, i as int)).0),
                actions_view(out@) == out0 + dial_all(v0.registry, v0.local, v0.bootstrap.subrange(0, i as int)).1,
            decreases self.bootstrap@.len() - i,
        {
            let ghost pre = v0.bootstrap.subrange(0, i as int);
            let ghost post = v0.bootstrap.subrange(0, i as int + 1);
            assert(post.drop_last() =~= pre);
            assert(post.last() == (self.bootstrap@[i as int].peer@, self.bootstrap@[i as int].address@));
            let ghost reg0 = self@.registry;
            let ghost mid = actions_view(out@);
            let is_local = same_text(self.bootstrap[i].peer.as_str(), self.registry.local());
            if !is_local {
                emit(out, Action::AddAddress {
                    peer: self.bootstrap[i].peer.clone(),
                    address: self.bootstrap[i].address.clone(),
                });
            }
            let dial = self.registry.request_dial(self.bootstrap[i].peer.as_str(), self.bootstrap[i].address.as_str());
            if dial {
                emit(out, Action::Dial {
                    peer: self.bootstrap[i].peer.clone(),
                    address: Some(self.bootstrap[i].address.clone()),
                });
            }
            proof {
                let id = self.bootstrap@[i as int].peer@;
                let addr = self.bootstrap@[i as int].address@;
                assert(actions_view(out@) =~= mid + dial_actions(reg0, v0.local, id, addr));
                assert(out0 + dial_all(v0.registry, v0.local, pre).1 + dial_actions(reg0, v0.local, id, addr)
                    =~= out0 + (dial_all(v0.registry, v0.local, pre).1 + dial_actions(reg0, v0.local, id, addr)));
            }
            i = i + 1;
        }
        assert(v0.bootstrap.subrange(0, self.bootstrap@.len() as int) =~= v0.bootstrap);
    }

    /// A discovery source reported the address `address` of `peer`.
    pub fn on_address_learned(&mut self, peer: &str, address: &str) -> (r: Vec<Action>)
        requires
            old(self).wf(),
        ensures
            final(self).wf(),
            final(self)@ == with_registry(
                old(self)@,
                observe_next(old(self)@.registry, old(self)@.local, peer@, Some(address@)),
            ),
            actions_view(r@) == fact_actions(old(self)@.registry, old(self)@.local, peer@, Some(address@)),
    {
        let mut out: Vec<Action> = Vec::new();
        self.learn(peer, Some(address), &mut out);
        proof {
            let fa = fact_actions(old(self)@.registry, old(self)@.local, peer@, Some(address@));
            assert(actions_view(Seq::<Action>::empty()) + fa =~= fa);
        }
        out
    }
}

impl Engine {
    /// A peer entered the DHT routing table.
    pub fn on_peer_observed(&mut self, peer: &str) -> (r: Vec<Action>)
        requires
            old(self).wf(),
        ensures
            final(self).wf(),
            final(self)@ == with_registry(old(self)@, observe_next(old(self)@.registry, old(self)@.local, peer@, None)),
            actions_view(r@) == fact_actions(old(self)@.registry, old(self)@.local, peer@, None),
    {
        let mut out: Vec<Action> = Vec::new();
        self.learn(peer, None, &mut out);
        proof {
            let fa = fact_actions(old(self)@.registry, old(self)@.local, peer@, None);
            assert(actions_view(Seq::<Action>::empty()) + fa =~= fa);
        }
        out
    }

    /// A DHT query returned `peer`: besides the discovery fact, its record
    /// is fetched, unless it is this node.
    pub fn on_peer_found(&mut self, peer: &str) -> (r: Vec<Action>)
        requires
            old(self).wf(),
        ensures
            final(self).wf(),
            final(self)@ == with_registry(old(self)@, observe_next(old(self)@.registry, old(self)@.local, peer@, None)),
            actions_view(r@) == fact_actions(old(self)@.registry, old(self)@.local, peer@, None)
                + found_fetch(old(self)@.local, peer@),
    {
        let mut out: Vec<Action> = Vec::new();
        let is_local = same_text(peer, self.registry.local());
        self.learn(peer, None, &mut out);
        if !is_local {
            emit(&mut out, Action::GetRecord { key: record_key_of(peer) });
        }
        proof {
            let fa = fact_actions(old(self)@.registry, old(self)@.local, peer@, None);
            assert(actions_view(Seq::<Action>::empty()) + fa =~= fa);
        }
        assert(actions_view(out@) =~= fact_actions(old(self)@.registry, old(self)@.local, peer@, None)
            + found_fetch(old(self)@.local, peer@));
        out
    }

    fn admit_entry(&mut self, key: &str, entry: &str, owner: Option<&str>, out: &mut Vec<Action>)
        requires
            old(self).wf(),
        ensures
            final(self).wf(),
            final(self)@ == with_registry(
                old(self)@,
                entry_step(old(self)@.registry, old(self)@.local, key@, entry@, opt_text(owner)).0,
            ),
            actions_view(final(out)@) == actions_view(old(out)@)
                + entry_step(old(self)@.registry, old(self)@.local, key@, entry@, opt_text(owner)).1,
    {
        match owner {
            Some(id) => {
                let own_key = record_key_of(id);
                if same_text(own_key.as_str(), key) {
                    self.learn(id, Some(entry), out);
                } else {
                    assert(actions_view(out@) + Seq::<ActionView>::empty() =~= actions_view(out@));
                }
            },
            None => {
                assert(actions_view(out@) + Seq::<ActionView>::empty() =~= actions_view(out@));
            },
        }
    }

    /// One entry, whose embedded owner is `owner`, of a record fetched under
    /// `key`: an address learned about that owner; nothing where it has
    /// none, where it is this node, or where the record is not stored under
    /// the owner's own key.
    pub fn admit_record_entry(&mut self, key: &str, entry: &str, owner: Option<&str>) -> (r: Vec<Action>)
        requires
            old(self).wf(),
        ensures
            final(self).wf(),
            final(self)@ == with_registry(
                old(self)@,
                entry_step(old(self)@.registry, old(self)@.local, key@, entry@, opt_text(owner)).0,
            ),
            actions_view(r@) == entry_step(old(self)@.registry, old(self)@.local, key@, entry@, opt_text(owner)).1,
    {
        let mut out: Vec<Action> = Vec::new();
        self.admit_entry(key, entry, owner, &mut out);
        proof {
            let a = entry_step(old(self)@.registry, old(self)@.local, key@, entry@, opt_text(owner)).1;
            assert(actions_view(Seq::<Action>::empty()) + a =~= a);
        }
        out
    }

    /// A record fetched from the DHT under `key`: each entry that embeds an
    /// owner other than this node, whose own key `key` is, is an address
    /// learned about that owner. Entries that do not parse, or that claim
    /// another owner, are skipped one by one.
    pub fn on_record_fetched(&mut self, key: &str, value: &str) -> (r: Vec<Action>)
        requires
            old(self).wf(),
        ensures
            final(self).wf(),
            final(self)@ == with_registry(
                old(self)@,
                learn_all(old(self)@.registry, old(self)@.local, key@, split_entries(value@)).0,
            ),
            actions_view(r@) == learn_all(old(self)@.registry, old(self)@.local, key@, split_entries(value@)).1,
    {
        let entries = parse_record(value);
        let ghost es = texts(entries@);
        let ghost v0 = self@;
        let mut out: Vec<Action> = Vec::new();
        assert(actions_view(out@) =~= Seq::<ActionView>::empty());
        let mut i: usize = 0;
        while i < entries.len()
            invariant
                self.wf(),
                es == texts(entries@),
                i <= entries@.len(),
                self@ == with_registry(v0, learn_all(v0.registry, v0.local, key@, es.subrange(0, i as int)).0),
                actions_view(out@) == learn_all(v0.registry, v0.local, key@, es.subrange(0, i as int)).1,
            decreases entries@.len() - i,
        {
            let ghost pre = es.subrange(0, i as int);
            let ghost post = es.subrange(0, i as int + 1);
            assert(post.drop_last() =~= pre);
            assert(post.last() == entries@[i as int]@);
            let owner = entry_owner(entries[i].as_str());
            match owner {
                Some(id) => self.admit_entry(key, entries[i].as_str(), Some(id.as_str()), &mut out),
                None => self.admit_entry(key, entries[i].as_str(), None, &mut out),
            }
            i = i + 1;
        }
        assert(es.subrange(0, entries@.len() as int) =~= es);
        out
    }

    /// A connection to `peer` was established: it enters the mesh and is
    /// registered as an explicit mesh member, unless it is this node.
    pub fn on_connected(&mut self, peer: &str) -> (r: Vec<Action>)
        requires
            old(self).wf(),
        ensures
            final(self).wf(),
            final(self)@ == with_registry(old(self)@, connect_next(old(self)@.registry, old(self)@.local, peer@)),
            actions_view(r@) == (if peer@ != old(self)@.local {
                seq![ActionView::AddExplicitPeer { peer: peer@ }]
            } else {
                Seq::empty()
            }),
    {
        let mut out: Vec<Action> = Vec::new();
        let admitted = self.registry.connected(peer);
        if admitted {
            emit(&mut out, Action::AddExplicitPeer { peer: String::from_str(peer) });
        }
        assert(actions_view(out@) =~= (if peer@ != old(self)@.local {
                seq![ActionView::AddExplicitPeer { peer: peer@ }]
            } else {
                Seq::empty()
            }));
        out
    }

    /// A dial to `peer` failed: it becomes stale, with no retry scheduled.
    pub fn on_dial_failed(&mut self, peer: &str) -> (r: Vec<Action>)
        requires
            old(self).wf(),
        ensures
            final(self).wf(),
            final(self)@ == with_registry(old(self)@, lose_next(old(self)@.registry, peer@)),
            r@.len() == 0,
    {
        self.registry.lost(peer);
        Vec::new()
    }

    /// A connection to `peer` closed, with `remaining` others still open:
    /// where none remains, the peer becomes stale.
    pub fn on_disconnected(&mut self, peer: &str, remaining: u32) -> (r: Vec<Action>)
        requires
            old(self).wf(),
        ensures
            final(self).wf(),
            final(self)@ == (if remaining == 0 {
                with_registry(old(self)@, lose_next(old(self)@.registry, peer@))
            } else {
                old(self)@
            }),
            r@.len() == 0,
    {
        if remaining == 0 {
            self.registry.lost(peer);
        }
        Vec::new()
    }

    /// A payload arrived on the topic: it joins the delivered set and is
    /// handed to the application.
    pub fn on_message(&mut self, payload: &str) -> (r: Vec<Action>)
        requires
            old(self).wf(),
        ensures
            final(self).wf(),
            (final(self)@, actions_view(r@)) == message_spec(old(self)@, payload@),
    {
        self.delivered.insert(payload);
        let mut out: Vec<Action> = Vec::new();
        emit(&mut out, Action::Deliver { payload: String::from_str(payload) });
        assert(actions_view(out@) =~= seq![ActionView::Deliver { payload: payload@ }]);
        out
    }
}

fn push_known(list: &mut Vec<String>, a: &str) -> (added: bool)
    requires
        all_entries(texts(old(list)@)),
    ensures
        texts(final(list)@) == add_known(texts(old(list)@), a@),
        all_entries(texts(final(list)@)),
        added == (texts(final(list)@) != texts(old(list)@)),
{
    if !is_entry_text(a) {
        return false;
    }
    let mut i: usize = 0;
    while i < list.len()
        invariant
            i <= list@.len(),
            all_entries(texts(list@)),
            forall|k: int| 0 <= k < i ==> list@[k]@ != a@,
        decreases list@.len() - i,
    {
        if same_text(list[i].as_str(), a) {
            assert(texts(list@)[i as int] == a@);
            return false;
        }
        i = i + 1;
    }
    assert(!texts(list@).contains(a@)) by {
        if texts(list@).contains(a@) {
            let k = choose|k: int| 0 <= k < texts(list@).len() && texts(list@)[k] == a@;
            assert(list@[k]@ == a@);
        }
    }
    let ghost before = list@;
    list.push(String::from_str(a));
    assert(texts(list@) =~= texts(before).push(a@));
    assert(texts(list@).len() != texts(before).len());
    true
}

/// The public TCP address at port `p` of the machine at `ip`.
pub fn tcp_external_of(ip: &str, p: u16) -> (r: String)
    ensures
        r@ == tcp_external(ip@, p),
{
    let mut a = String::from_str("/ip4/");
    a.append(ip);
    a.append("/tcp/");
    a.append(decimal_text(p).as_str());
    a
}

/// The public QUIC address at port `p` of the machine at `ip`.
pub fn quic_external_of(ip: &str, p: u16) -> (r: String)
    ensures
        r@ == quic_external(ip@, p),
{
    let mut a = String::from_str("/ip4/");
    a.append(ip);
    a.append("/udp/");
    a.append(decimal_text(p).as_str());
    a.append("/quic-v1");
    a
}

/// The heartbeat payload of the node `name`.
pub fn heartbeat_of(name: &str) -> (r: String)
    ensures
        r@ == heartbeat(name@),
{
    let mut h = String::from_str("HELO FROM ");
    h.append(name);
    h
}

impl Engine {
    fn announce(&mut self, a: &str, out: &mut Vec<Action>)
        requires
            old(self).wf(),
        ensures
            final(self).wf(),
            final(self)@ == announce_spec(old(self)@, a@).0,
            actions_view(final(out)@) == actions_view(old(out)@) + announce_spec(old(self)@, a@).1,
    {
        let ghost out0 = actions_view(out@);
        push_known(&mut self.external, a);
        emit(out, Action::AddExternalAddress { address: String::from_str(a) });
        emit(out, Action::AddAddress { peer: String::from_str(self.registry.local()), address: String::from_str(a) });
        assert(actions_view(out@) =~= out0 + announce_spec(old(self)@, a@).1);
    }

    /// A peer reported the address at which it sees this node: announced,
    /// and where it is new the self record is rebuilt and republished.
    pub fn on_external_addr(&mut self, address: &str) -> (r: Vec<Action>)
        requires
            old(self).wf(),
        ensures
            final(self).wf(),
            (final(self)@, actions_view(r@)) == external_spec(old(self)@, address@),
    {
        let mut out: Vec<Action> = Vec::new();
        let before = self.external.len();
        self.announce(address, &mut out);
        proof {
            let a1 = announce_spec(old(self)@, address@).1;
            assert(actions_view(Seq::<Action>::empty()) + a1 =~= a1);
        }
        if self.external.len() != before {
            self.publish_record(&mut out);
        } else {
            assert(self@.external =~= old(self)@.external);
        }
        out
    }

    /// A listener was bound at `address`, carrying a TCP and a QUIC port or
    /// not, on a machine whose public address is `public_ip` if one was
    /// found: the derived public addresses are announced, the listener joins
    /// the self record, which is published, the bootstrap entries are dialed
    /// and the DHT bootstrapped.
    pub fn on_listen_addr(
        &mut self,
        address: &str,
        tcp_port: Option<u16>,
        quic_port: Option<u16>,
        public_ip: Option<&str>,
    ) -> (r: Vec<Action>)
        requires
            old(self).wf(),
        ensures
            final(self).wf(),
            (final(self)@, actions_view(r@))
                == listen_spec(old(self)@, address@, tcp_port, quic_port, opt_text(public_ip)),
    {
        let mut out: Vec<Action> = Vec::new();
        let ghost v = self@;
        let ghost ip = opt_text(public_ip);
        assert(actions_view(out@) =~= Seq::<ActionView>::empty());
        match (public_ip, tcp_port) {
            (Some(ip), Some(p)) => {
                let t = tcp_external_of(ip, p);
                self.announce(t.as_str(), &mut out);
            },
            _ => {},
        }
        let ghost v1 = self@;
        let ghost a1 = actions_view(out@);
        assert(opt_announce_spec(v, public_tcp(ip, tcp_port)) == (v1, a1)) by {
            assert(Seq::<ActionView>::empty() + announce_spec(v, tcp_external(ip->0, tcp_port->0)).1
                =~= announce_spec(v, tcp_external(ip->0, tcp_port->0)).1);
        }
        match (public_ip, quic_port) {
            (Some(ip), Some(p)) => {
                let q = quic_external_of(ip, p);
                self.announce(q.as_str(), &mut out);
            },
            _ => {},
        }
        let ghost v2 = self@;
        let ghost a2 = actions_view(out@);
        assert(opt_announce_spec(v1, public_quic(ip, quic_port)).0 == v2);
        assert(a2 =~= a1 + opt_announce_spec(v1, public_quic(ip, quic_port)).1);
        push_known(&mut self.listen, address);
        let ghost v3 = self@;
        assert(v3 == EngineView { listen: add_known(v2.listen, address@), ..v2 });
        let own = Action::AddAddress {
            peer: String::from_str(self.registry.local()),
            address: String::from_str(address),
        };
        emit(&mut out, own);
        self.publish_record(&mut out);
        let ghost a3 = actions_view(out@);
        self.dial_bootstrap(&mut out);
        let ghost a4 = actions_view(out@);
        emit(&mut out, Action::Bootstrap);
        assert(actions_view(out@) =~= a1 + opt_announce_spec(v1, public_quic(ip, quic_port)).1
            + seq![ActionView::AddAddress { peer: v.local, address: address@ }, publish_action(v3)]
            + dial_all(v3.registry, v3.local, v3.bootstrap).1 + seq![ActionView::Bootstrap]);
        out
    }
}

/// The record fetch for the node `id`.
pub open spec fn fetch_of(id: Seq<char>) -> ActionView {
    ActionView::GetRecord { key: record_key(id) }
}

proof fn lemma_fetches_cover(ids: Seq<Seq<char>>)
    ensures
        ids.map_values(|id: Seq<char>| fetch_of(id)).to_set() == ids.to_set().map(|id: Seq<char>| fetch_of(id)),
{
    let f = |id: Seq<char>| fetch_of(id);
    let m = ids.map_values(f);
    assert forall|a: ActionView| m.to_set().contains(a) <==> ids.to_set().map(f).contains(a) by {
        if m.to_set().contains(a) {
            let k = choose|k: int| 0 <= k < m.len() && m[k] == a;
            assert(ids.to_set().contains(ids[k]));
        }
        if ids.to_set().map(f).contains(a) {
            let x = choose|x: Seq<char>| ids.to_set().contains(x) && a == f(x);
            let k = choose|k: int| 0 <= k < ids.len() && ids[k] == x;
            assert(m[k] == a);
        }
    }
    assert(m.to_set() =~= ids.to_set().map(f));
}

impl Engine {
    fn discovery_scan(&self, out: &mut Vec<Action>)
        requires
            self.wf(),
            old(out)@.len() == 0,
        ensures
            scan_actions_ok(self@, actions_view(final(out)@)),
    {
        emit(out, Action::GetClosestPeers);
        let ids = self.registry.ids();
        let ghost idv = texts(ids@);
        let mut i: usize = 0;
        while i < ids.len()
            invariant
                idv == texts(ids@),
                i <= ids@.len(),
                out@.len() == i + 1,
                actions_view(out@) == seq![ActionView::GetClosestPeers]
                    + idv.subrange(0, i as int).map_values(|id: Seq<char>| fetch_of(id)),
            decreases ids@.len() - i,
        {
            let ghost before = actions_view(out@);
            emit(out, Action::GetRecord { key: record_key_of(ids[i].as_str()) });
            assert(idv.subrange(0, i as int + 1).map_values(|id: Seq<char>| fetch_of(id))
                =~= idv.subrange(0, i as int).map_values(|id: Seq<char>| fetch_of(id)).push(fetch_of(idv[i as int])));
            assert(actions_view(out@) =~= seq![ActionView::GetClosestPeers]
                + idv.subrange(0, i as int + 1).map_values(|id: Seq<char>| fetch_of(id)));
            i = i + 1;
        }
        proof {
            assert(idv.subrange(0, ids@.len() as int) =~= idv);
            let acts = actions_view(out@);
            assert(acts.drop_first() =~= idv.map_values(|id: Seq<char>| fetch_of(id)));
            lemma_fetches_cover(idv);
            idv.unique_seq_to_set();
            assert(self@.registry.dom().map(|id: Seq<char>| ActionView::GetRecord { key: record_key(id) })
                =~= self@.registry.dom().map(|id: Seq<char>| fetch_of(id)));
        }
    }

    /// A timer elapsed. The discovery scan queries for the peers closest to
    /// this node and fetches the record of every known peer; the republish
    /// timer publishes the self record; the rebootstrap timer re-dials the
    /// bootstrap entries and bootstraps the DHT; the heartbeat timer
    /// publishes this node's heartbeat.
    pub fn on_tick(&mut self, timer: Timer) -> (r: Vec<Action>)
        requires
            old(self).wf(),
        ensures
            final(self).wf(),
            timer != Timer::DiscoveryScan ==> (final(self)@, actions_view(r@)) == tick_spec(old(self)@, timer),
            timer == Timer::DiscoveryScan
                ==> final(self)@ == old(self)@ && scan_actions_ok(old(self)@, actions_view(r@)),
    {
        let mut out: Vec<Action> = Vec::new();
        assert(actions_view(out@) =~= Seq::<ActionView>::empty());
        match timer {
            Timer::DiscoveryScan => {
                self.discovery_scan(&mut out);
            },
            Timer::Republish => {
                self.publish_record(&mut out);
                assert(actions_view(out@) =~= seq![publish_action(old(self)@)]);
            },
            Timer::Rebootstrap => {
                self.dial_bootstrap(&mut out);
                emit(&mut out, Action::Bootstrap);
                let ghost dials = dial_all(old(self)@.registry, old(self)@.local, old(self)@.bootstrap).1;
                assert(actions_view(out@) =~= dials.push(ActionView::Bootstrap));
            },
            Timer::Heartbeat => {
                let h = heartbeat_of(self.name.as_str());
                emit(&mut out, Action::Publish { payload: h });
                assert(actions_view(out@) =~= seq![ActionView::Publish { payload: heartbeat(old(self)@.name) }]);
            },
        }
        out
    }
}

/// The view of an optional text.
pub open spec fn opt_string(s: Option<String>) -> Option<Seq<char>> {
    match s {
        Some(a) => Some(a@),
        None => None,
    }
}

/// What handling `e` in state `v` leads to: the state `w` and the actions `acts`.
pub open spec fn step_spec(v: EngineView, e: Event, w: EngineView, acts: Seq<ActionView>) -> bool {
    match e {
        Event::ListenAddr { address, tcp_port, quic_port, public_ip } =>
            (w, acts) == listen_spec(v, address@, tcp_port, quic_port, opt_string(public_ip)),
        Event::ExternalAddr { address } => (w, acts) == external_spec(v, address@),
        Event::AddressLearned { peer, address } =>
            w == with_registry(v, observe_next(v.registry, v.local, peer@, Some(address@)))
                && acts == fact_actions(v.registry, v.local, peer@, Some(address@)),
        Event::PeerObserved { peer } =>
            w == with_registry(v, observe_next(v.registry, v.local, peer@, None))
                && acts == fact_actions(v.registry, v.local, peer@, None),
        Event::PeerFound { peer } =>
            w == with_registry(v, observe_next(v.registry, v.local, peer@, None))
                && acts == fact_actions(v.registry, v.local, peer@, None) + found_fetch(v.local, peer@),
        Event::RecordFetched { key, value } =>
            w == with_registry(v, learn_all(v.registry, v.local, key@, split_entries(value@)).0)
                && acts == learn_all(v.registry, v.local, key@, split_entries(value@)).1,
        Event::Connected { peer } =>
            w == with_registry(v, connect_next(v.registry, v.local, peer@))
                && acts == (if peer@ != v.local {
                    seq![ActionView::AddExplicitPeer { peer: peer@ }]
                } else {
                    Seq::empty()
                }),
        Event::DialFailed { peer } =>
            w == with_registry(v, lose_next(v.registry, peer@)) && acts.len() == 0,
        Event::Disconnected { peer, remaining } =>
            w == (if remaining == 0 { with_registry(v, lose_next(v.registry, peer@)) } else { v })
                && acts.len() == 0,
        Event::Message { payload } => (w, acts) == message_spec(v, payload@),
        Event::Tick { timer } =>
            if timer == Timer::DiscoveryScan {
                w == v && scan_actions_ok(v, acts)
            } else {
                (w, acts) == tick_spec(v, timer)
            },
    }
}

/// The bootstrap entries of the addresses `addrs`: each that embeds an
/// owner, with it, in order.
pub open spec fn bootstrap_of(addrs: Seq<Seq<char>>) -> Seq<(Seq<char>, Seq<char>)>
    decreases addrs.len(),
{
    if addrs.len() == 0 {
        Seq::empty()
    } else {
        let rest = bootstrap_of(addrs.drop_last());
        match multiaddr_owner(addrs.last()) {
            Some(id) => rest.push((id, addrs.last())),
            None => rest,
        }
    }
}

impl Engine {
    /// An engine for the node `local`, named `name`, whose bootstrap entries
    /// are those of `bootstrap_addrs` that embed an owner.
    pub fn new(local: String, name: String, bootstrap_addrs: &Vec<String>) -> (r: Engine)
        ensures
            r.wf(),
            r@ == (EngineView {
                local: local@,
                name: name@,
                registry: Map::empty(),
                bootstrap: bootstrap_of(texts(bootstrap_addrs@)),
                listen: Seq::empty(),
                external: Seq::empty(),
                delivered: Set::empty(),
            }),
    {
        let mut entries: Vec<BootstrapEntry> = Vec::new();
        let ghost addrs = texts(bootstrap_addrs@);
        let mut i: usize = 0;
        assert(entries_view(entries@) =~= Seq::empty());
        while i < bootstrap_addrs.len()
            invariant
                addrs == texts(bootstrap_addrs@),
                i <= bootstrap_addrs@.len(),
                entries_view(entries@) == bootstrap_of(addrs.subrange(0, i as int)),
            decreases bootstrap_addrs@.len() - i,
        {
            let ghost pre = addrs.subrange(0, i as int);
            let ghost post = addrs.subrange(0, i as int + 1);
            assert(post.drop_last() =~= pre);
            assert(post.last() == bootstrap_addrs@[i as int]@);
            match BootstrapEntry::from_address(bootstrap_addrs[i].as_str()) {
                Some(e) => {
                    let ghost before = entries@;
                    entries.push(e);
                    assert(entries_view(entries@) =~= entries_view(before).push((e.peer@, e.address@)));
                },
                None => {},
            }
            i = i + 1;
        }
        assert(addrs.subrange(0, bootstrap_addrs@.len() as int) =~= addrs);
        Engine::with_entries(local, name, entries)
    }

    /// Handles one event: routes it to its handler and returns the actions
    /// for the host to perform.
    pub fn step(&mut self, event: Event) -> (r: Vec<Action>)
        requires
            old(self).wf(),
        ensures
            final(self).wf(),
            step_spec(old(self)@, event, final(self)@, actions_view(r@)),
    {
        match event {
            Event::ListenAddr { address, tcp_port, quic_port, public_ip } => match public_ip {
                Some(ip) => self.on_listen_addr(address.as_str(), tcp_port, quic_port, Some(ip.as_str())),
                None => self.on_listen_addr(address.as_str(), tcp_port, quic_port, None),
            },
            Event::ExternalAddr { address } => self.on_external_addr(address.as_str()),
            Event::AddressLearned { peer, address } => self.on_address_learned(peer.as_str(), address.as_str()),
            Event::PeerObserved { peer } => self.on_peer_observed(peer.as_str()),
            Event::PeerFound { peer } => self.on_peer_found(peer.as_str()),
            Event::RecordFetched { key, value } => self.on_record_fetched(key.as_str(), value.as_str()),
            Event::Connected { peer } => self.on_connected(peer.as_str()),
            Event::DialFailed { peer } => self.on_dial_failed(peer.as_str()),
            Event::Disconnected { peer, remaining } => self.on_disconnected(peer.as_str(), remaining),
            Event::Message { payload } => self.on_message(payload.as_str()),
            Event::Tick { timer } => self.on_tick(timer),
        }
    }
}

/// The statically configured bootstrap addresses.
pub fn default_bootstrap_addresses() -> (r: Vec<String>)
    ensures
        texts(r@) == seq![
            "/dnsaddr/bootstrap.libp2p.io/p2p/QmNnooDu7bfjPFoTZYxMNLWUQJyrVwtbZg5gBMjTezGAJN"@,
            "/dnsaddr/bootstrap.libp2p.io/p2p/QmQCU2EcMqAqQPR2i9bChDtGNJchTbq5TbXJJ16u19uLTa"@,
            "/dnsaddr/bootstrap.libp2p.io/p2p/QmbLHAnMoJPWSCR5Zhtx6BHJX9KiKNN6tpvbUcqanj75Nb"@,
            "/dnsaddr/bootstrap.libp2p.io/p2p/QmcZf59bWwK5XFi76CZX8cbJ4BhTzzA3gU1ZjYZcYW3dwt"@,
            "/ip4/104.131.131.82/tcp/4001/p2p/QmaCpDMGvV2BGHeYERUEnRQAwe3N8SzbUtfsmvsqQLuvuJ"@,
        ],
{
    let mut r: Vec<String> = Vec::new();
    r.push(String::from_str("/dnsaddr/bootstrap.libp2p.io/p2p/QmNnooDu7bfjPFoTZYxMNLWUQJyrVwtbZg5gBMjTezGAJN"));
    r.push(String::from_str("/dnsaddr/bootstrap.libp2p.io/p2p/QmQCU2EcMqAqQPR2i9bChDtGNJchTbq5TbXJJ16u19uLTa"));
    r.push(String::from_str("/dnsaddr/bootstrap.libp2p.io/p2p/QmbLHAnMoJPWSCR5Zhtx6BHJX9KiKNN6tpvbUcqanj75Nb"));
    r.push(String::from_str("/dnsaddr/bootstrap.libp2p.io/p2p/QmcZf59bWwK5XFi76CZX8cbJ4BhTzzA3gU1ZjYZcYW3dwt"));
    r.push(String::from_str("/ip4/104.131.131.82/tcp/4001/p2p/QmaCpDMGvV2BGHeYERUEnRQAwe3N8SzbUtfsmvsqQLuvuJ"));
    assert(texts(r@) =~= seq![
        "/dnsaddr/bootstrap.libp2p.io/p2p/QmNnooDu7bfjPFoTZYxMNLWUQJyrVwtbZg5gBMjTezGAJN"@,
        "/dnsaddr/bootstrap.libp2p.io/p2p/QmQCU2EcMqAqQPR2i9bChDtGNJchTbq5TbXJJ16u19uLTa"@,
        "/dnsaddr/bootstrap.libp2p.io/p2p/QmbLHAnMoJPWSCR5Zhtx6BHJX9KiKNN6tpvbUcqanj75Nb"@,
        "/dnsaddr/bootstrap.libp2p.io/p2p/QmcZf59bWwK5XFi76CZX8cbJ4BhTzzA3gU1ZjYZcYW3dwt"@,
        "/ip4/104.131.131.82/tcp/4001/p2p/QmaCpDMGvV2BGHeYERUEnRQAwe3N8SzbUtfsmvsqQLuvuJ"@,
    ]);
    r
}

/// The engine's registry never holds the local node: every handler keeps
/// the engine well formed, and a well-formed engine's registry lacks it.
pub proof fn lemma_engine_self_excluded(e: &Engine)
    requires
        e.wf(),
    ensures
        !e@.registry.contains_key(e@.local),
{
    lemma_self_excluded(&e.registry);
}

/// Once a peer is in the mesh, a further discovery fact about it, from any
/// source and with or without an address, or a bootstrap dial request for
/// it, leaves it in the mesh and asks for no dial.
pub proof fn lemma_meshed_not_redialed(
    reg: Map<Seq<char>, PeerView>,
    local: Seq<char>,
    id: Seq<char>,
    addr: Option<Seq<char>>,
    dial_addr: Seq<char>,
)
    requires
        reg.contains_key(id),
        reg[id].state == PeerState::Meshed,
    ensures
        observe_next(reg, local, id, addr)[id].state == PeerState::Meshed,
        forall|k: int| 0 <= k < fact_actions(reg, local, id, addr).len()
            ==> !(#[trigger] fact_actions(reg, local, id, addr)[k] is Dial),
        dial_next(reg, local, id, dial_addr)[id].state == PeerState::Meshed,
        forall|k: int| 0 <= k < dial_actions(reg, local, id, dial_addr).len()
            ==> !(#[trigger] dial_actions(reg, local, id, dial_addr)[k] is Dial),
{
    lemma_meshed_stays(reg, local, id, addr, dial_addr);
}

/// A payload delivered twice leaves the delivered set as one delivery does.
pub proof fn lemma_message_idempotent(v: EngineView, payload: Seq<char>)
    requires
        v.delivered.finite(),
    ensures
        message_spec(message_spec(v, payload).0, payload).0 == message_spec(v, payload).0,
        message_spec(message_spec(v, payload).0, payload).0.delivered.len()
            == message_spec(v, payload).0.delivered.len(),
{
    lemma_delivery_idempotent(v.delivered, payload);
}

/// The record that an engine publishes reads back, once fetched and split,
/// as exactly the entries it was built from.
pub proof fn lemma_published_record_round_trip(v: EngineView)
    ensures
        split_entries(self_record_value(v)) == self_entries(v.listen + v.external, v.local),
{
    lemma_record_round_trip(v.listen + v.external, v.local);
}

} // verus!
