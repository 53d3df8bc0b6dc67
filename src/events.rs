//! What passes between a node's event loop and its engine: the timers, the
//! events handed in and the actions handed out.

use vstd::prelude::*;

verus! {

/// The four maintenance timers.
#[derive(PartialEq, Eq, Structural, Clone, Copy, Debug)]
pub enum Timer {
    /// Looks for peers close to this node and fetches the records of known peers.
    DiscoveryScan,
    /// Rebuilds and republishes the self record.
    Republish,
    /// Re-dials the bootstrap entries and re-runs the DHT bootstrap.
    Rebootstrap,
    /// Publishes a heartbeat to the topic.
    Heartbeat,
}

/// The period of a timer, in seconds.
pub open spec fn period_secs(t: Timer) -> u64 {
    match t {
        Timer::DiscoveryScan => 15,
        Timer::Republish => 30,
        Timer::Rebootstrap => 300,
        Timer::Heartbeat => 10,
    }
}

/// How long a published record lives in the DHT, in seconds.
pub const RECORD_TTL_SECS: u64 = 60;

/// The period of a timer, in seconds. The record is republished well within
/// its lifetime.
pub fn timer_period_secs(t: Timer) -> (r: u64)
    ensures
        r == period_secs(t),
        t == Timer::Republish ==> r < RECORD_TTL_SECS,
{
    match t {
        Timer::DiscoveryScan => 15,
        Timer::Republish => 30,
        Timer::Rebootstrap => 300,
        Timer::Heartbeat => 10,
    }
}

/// The name of the gossip topic.
pub fn topic_name() -> (r: &'static str)
    ensures
        r@ == "raggy-chat"@,
{
    "raggy-chat"
}

/// What the host loop hands to the engine.
#[derive(Clone, Debug, PartialEq, Eq)]
pub enum Event {
    /// The transport bound a listener; the ports it carries, and the public
    /// address of the machine if one was found.
    ListenAddr { address: String, tcp_port: Option<u16>, quic_port: Option<u16>, public_ip: Option<String> },
    /// A peer reported the address at which it sees this node.
    ExternalAddr { address: String },
    /// A discovery source reported an address of a peer.
    AddressLearned { peer: String, address: String },
    /// A peer entered the DHT routing table.
    PeerObserved { peer: String },
    /// A DHT query (bootstrap, closest peers) returned a peer.
    PeerFound { peer: String },
    /// A record fetched from the DHT: its key and its value, as text.
    RecordFetched { key: String, value: String },
    /// A connection to a peer was established.
    Connected { peer: String },
    /// A dial to a peer failed.
    DialFailed { peer: String },
    /// A connection to a peer closed, with `remaining` still open.
    Disconnected { peer: String, remaining: u32 },
    /// A payload arrived on the topic.
    Message { payload: String },
    /// A timer elapsed.
    Tick { timer: Timer },
}

/// What the engine asks the host to do.
#[allow(inconsistent_fields)]
#[derive(Clone, Debug, PartialEq, Eq)]
pub enum Action {
    /// Dial a peer, at the address given or at any the host knows.
    Dial { peer: String, address: Option<String> },
    /// Tell the DHT of an address of a peer.
    AddAddress { peer: String, address: String },
    /// Make a peer an explicit member of the gossip mesh.
    AddExplicitPeer { peer: String },
    /// Announce an address of this node.
    AddExternalAddress { address: String },
    /// Store a record in the DHT.
    PutRecord { key: String, value: String },
    /// Fetch a record from the DHT.
    GetRecord { key: String },
    /// Look for the peers closest to this node.
    GetClosestPeers,
    /// Run the DHT bootstrap.
    Bootstrap,
    /// Publish a payload to the topic.
    Publish { payload: String },
    /// Hand a received payload to the application.
    Deliver { payload: String },
}

/// An action, with its texts as sequences of characters.
#[allow(inconsistent_fields)]
pub ghost enum ActionView {
    Dial { peer: Seq<char>, address: Option<Seq<char>> },
    AddAddress { peer: Seq<char>, address: Seq<char> },
    AddExplicitPeer { peer: Seq<char> },
    AddExternalAddress { address: Seq<char> },
    PutRecord { key: Seq<char>, value: Seq<char> },
    GetRecord { key: Seq<char> },
    GetClosestPeers,
    Bootstrap,
    Publish { payload: Seq<char> },
    Deliver { payload: Seq<char> },
}

impl View for Action {
    type V = ActionView;

    open spec fn view(&self) -> ActionView {
        match self {
            Action::Dial { peer, address } => ActionView::Dial {
                peer: peer@,
                address: match address { Some(a) => Some(a@), None => None },
            },
            Action::AddAddress { peer, address } => ActionView::AddAddress { peer: peer@, address: address@ },
            Action::AddExplicitPeer { peer } => ActionView::AddExplicitPeer { peer: peer@ },
            Action::AddExternalAddress { address } => ActionView::AddExternalAddress { address: address@ },
            Action::PutRecord { key, value } => ActionView::PutRecord { key: key@, value: value@ },
            Action::GetRecord { key } => ActionView::GetRecord { key: key@ },
            Action::GetClosestPeers => ActionView::GetClosestPeers,
            Action::Bootstrap => ActionView::Bootstrap,
            Action::Publish { payload } => ActionView::Publish { payload: payload@ },
            Action::Deliver { payload } => ActionView::Deliver { payload: payload@ },
        }
    }
}

/// The views of a sequence of actions.
pub open spec fn actions_view(v: Seq<Action>) -> Seq<ActionView> {
    v.map_values(|a: Action| a@)
}

} // verus!
