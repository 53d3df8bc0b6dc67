use raggy_p2p::delivered::DeliveredSet;
use raggy_p2p::engine::{default_bootstrap_addresses, heartbeat_of, quic_external_of, tcp_external_of, BootstrapEntry, Engine};
use raggy_p2p::events::{timer_period_secs, topic_name, Action, Event, Timer, RECORD_TTL_SECS};
use raggy_p2p::record::record_key_of;
use raggy_p2p::registry::PeerState;
use std::collections::HashMap;

const N1: &str = "QmNnooDu7bfjPFoTZYxMNLWUQJyrVwtbZg5gBMjTezGAJN";
const N2: &str = "QmQCU2EcMqAqQPR2i9bChDtGNJchTbq5TbXJJ16u19uLTa";
const N3: &str = "QmbLHAnMoJPWSCR5Zhtx6BHJX9KiKNN6tpvbUcqanj75Nb";

fn engine(id: &str, name: &str) -> Engine {
    Engine::new(id.to_string(), name.to_string(), &Vec::new())
}

fn dial(peer: &str, address: Option<&str>) -> Action {
    Action::Dial { peer: peer.to_string(), address: address.map(|a| a.to_string()) }
}

fn add_address(peer: &str, address: &str) -> Action {
    Action::AddAddress { peer: peer.to_string(), address: address.to_string() }
}

#[test]
fn heartbeat_names_the_node() {
    let mut e = engine(N1, "node1");
    let acts = e.step(Event::Tick { timer: Timer::Heartbeat });
    assert_eq!(acts, vec![Action::Publish { payload: "HELO FROM node1".to_string() }]);
    assert_eq!(heartbeat_of("node3"), "HELO FROM node3");
    assert_eq!(topic_name(), "raggy-chat");
}

#[test]
fn republish_comes_before_the_record_expires() {
    assert!(timer_period_secs(Timer::Republish) < RECORD_TTL_SECS);
    assert_eq!(timer_period_secs(Timer::DiscoveryScan), 15);
    assert_eq!(timer_period_secs(Timer::Rebootstrap), 300);
    assert_eq!(timer_period_secs(Timer::Heartbeat), 10);
}

#[test]
fn public_addresses_are_written_out() {
    assert_eq!(tcp_external_of("1.2.3.4", 8001), "/ip4/1.2.3.4/tcp/8001");
    assert_eq!(quic_external_of("1.2.3.4", 8001), "/ip4/1.2.3.4/udp/8001/quic-v1");
}

#[test]
fn listen_addr_publishes_record_and_dials_bootstrap() {
    let boot = vec![format!("/ip4/10.0.0.9/tcp/4001/p2p/{}", N2), "/ip4/10.0.0.8/tcp/4001".to_string()];
    let mut e = Engine::new(N1.to_string(), "node1".to_string(), &boot);
    let acts = e.step(Event::ListenAddr {
        address: "/ip4/127.0.0.1/tcp/8001".to_string(),
        tcp_port: Some(8001),
        quic_port: None,
        public_ip: Some("1.2.3.4".to_string()),
    });
    let key = format!("/raggy/peers/{}", N1);
    let value = format!("/ip4/127.0.0.1/tcp/8001/p2p/{},/ip4/1.2.3.4/tcp/8001/p2p/{}", N1, N1);
    assert_eq!(
        acts,
        vec![
            Action::AddExternalAddress { address: "/ip4/1.2.3.4/tcp/8001".to_string() },
            add_address(N1, "/ip4/1.2.3.4/tcp/8001"),
            add_address(N1, "/ip4/127.0.0.1/tcp/8001"),
            Action::PutRecord { key, value },
            add_address(N2, &boot[0]),
            dial(N2, Some(&boot[0])),
            Action::Bootstrap,
        ]
    );
    assert_eq!(e.registry().state_of(N2), Some(PeerState::Dialing));
    assert_eq!(e.self_record().entries.len(), 2);
}

#[test]
fn listen_addr_without_public_ip_announces_nothing() {
    let mut e = engine(N1, "node1");
    let acts = e.on_listen_addr("/ip4/0.0.0.0/udp/8001/quic-v1", None, Some(8001), None);
    assert_eq!(acts.len(), 3);
    assert_eq!(acts[0], add_address(N1, "/ip4/0.0.0.0/udp/8001/quic-v1"));
    assert_eq!(
        acts[1],
        Action::PutRecord {
            key: record_key_of(N1),
            value: format!("/ip4/0.0.0.0/udp/8001/quic-v1/p2p/{}", N1),
        }
    );
    assert_eq!(acts[2], Action::Bootstrap);
}

#[test]
fn new_external_address_republishes_once() {
    let mut e = engine(N1, "node1");
    let first = e.step(Event::ExternalAddr { address: "/ip4/5.6.7.8/tcp/8001".to_string() });
    assert_eq!(first.len(), 3);
    assert_eq!(
        first[2],
        Action::PutRecord { key: record_key_of(N1), value: format!("/ip4/5.6.7.8/tcp/8001/p2p/{}", N1) }
    );
    let again = e.on_external_addr("/ip4/5.6.7.8/tcp/8001");
    assert_eq!(
        again,
        vec![
            Action::AddExternalAddress { address: "/ip4/5.6.7.8/tcp/8001".to_string() },
            add_address(N1, "/ip4/5.6.7.8/tcp/8001"),
        ]
    );
}

#[test]
fn fetched_record_skips_own_and_malformed_entries() {
    let mut e = engine(N1, "node1");
    let value = format!(
        "/ip4/1.1.1.1/tcp/1/p2p/{},garbage,/ip4/2.2.2.2/tcp/2/p2p/{},/ip4/3.3.3.3/tcp/3,/ip4/4.4.4.4/tcp/4/p2p/{}",
        N1, N2, N3
    );
    let key = record_key_of(N2);
    let acts = e.step(Event::RecordFetched { key: key.clone(), value: value.clone() });
    let a2 = format!("/ip4/2.2.2.2/tcp/2/p2p/{}", N2);
    assert_eq!(acts, vec![add_address(N2, &a2)]);
    assert_eq!(e.registry().state_of(N2), Some(PeerState::Candidate));
    assert_eq!(e.registry().state_of(N1), None);
    assert_eq!(e.registry().state_of(N3), None);
    let again = e.on_record_fetched(&key, &value);
    assert_eq!(again, vec![add_address(N2, &a2), dial(N2, Some(&a2))]);
    assert_eq!(e.registry().state_of(N2), Some(PeerState::Dialing));
}

#[test]
fn record_entry_follows_the_given_owner() {
    let mut e = engine(N1, "node1");
    let key = record_key_of("p7");
    assert!(e.admit_record_entry(&key, "/ip4/2.2.2.2/tcp/2", None).is_empty());
    assert!(e.admit_record_entry(&record_key_of(N1), "/ip4/2.2.2.2/tcp/2", Some(N1)).is_empty());
    assert!(e.admit_record_entry(&key, "/ip4/2.2.2.2/tcp/2", Some("p8")).is_empty());
    assert_eq!(e.registry().state_of("p8"), None);
    assert_eq!(e.admit_record_entry(&key, "/ip4/2.2.2.2/tcp/2", Some("p7")), vec![add_address("p7", "/ip4/2.2.2.2/tcp/2")]);
    assert_eq!(e.registry().state_of("p7"), Some(PeerState::Candidate));
}

#[test]
fn peer_found_fetches_its_record() {
    let mut e = engine(N1, "node1");
    assert_eq!(e.step(Event::PeerFound { peer: N2.to_string() }), vec![Action::GetRecord { key: record_key_of(N2) }]);
    assert_eq!(
        e.on_peer_found(N2),
        vec![dial(N2, None), Action::GetRecord { key: record_key_of(N2) }]
    );
    assert!(e.on_peer_found(N1).is_empty());
    assert!(e.step(Event::PeerObserved { peer: N3.to_string() }).is_empty());
    assert_eq!(e.on_peer_observed(N3), vec![dial(N3, None)]);
}

#[test]
fn discovery_scan_fetches_every_known_record() {
    let mut e = engine(N1, "node1");
    assert_eq!(e.step(Event::Tick { timer: Timer::DiscoveryScan }), vec![Action::GetClosestPeers]);
    e.on_peer_observed(N2);
    e.on_address_learned(N3, "/ip4/3.3.3.3/tcp/3");
    let acts = e.on_tick(Timer::DiscoveryScan);
    assert_eq!(acts.len(), 3);
    assert_eq!(acts[0], Action::GetClosestPeers);
    assert!(acts.contains(&Action::GetRecord { key: record_key_of(N2) }));
    assert!(acts.contains(&Action::GetRecord { key: record_key_of(N3) }));
}

#[test]
fn rebootstrap_redials_entries_not_meshed() {
    let boot = default_bootstrap_addresses();
    assert_eq!(boot.len(), 5);
    let mut e = Engine::new(N1.to_string(), "node1".to_string(), &boot);
    let acts = e.on_tick(Timer::Rebootstrap);
    // The first entry names this very node.
    assert_eq!(acts.len(), 4 * 2 + 1);
    assert_eq!(acts[8], Action::Bootstrap);
    e.on_connected(N2);
    let acts = e.on_tick(Timer::Rebootstrap);
    assert_eq!(acts.len(), 4 + 1);
    assert!(!acts.iter().any(|a| matches!(a, Action::Dial { .. })));
    assert_eq!(e.registry().state_of(N2), Some(PeerState::Meshed));
}

#[test]
fn bootstrap_entry_needs_an_owner() {
    let e = BootstrapEntry::from_address(&format!("/ip4/10.0.0.9/tcp/4001/p2p/{}", N3)).unwrap();
    assert_eq!(e.peer, N3);
    assert!(BootstrapEntry::from_address("/ip4/10.0.0.9/tcp/4001").is_none());
    let mut eng = Engine::with_entries(N1.to_string(), "n".to_string(), vec![e]);
    let acts = eng.on_tick(Timer::Rebootstrap);
    assert_eq!(acts.len(), 3);
}

#[test]
fn connection_lifecycle() {
    let mut e = engine(N1, "node1");
    assert_eq!(e.step(Event::Connected { peer: N2.to_string() }), vec![Action::AddExplicitPeer { peer: N2.to_string() }]);
    assert!(e.on_connected(N1).is_empty());
    assert!(e.step(Event::Disconnected { peer: N2.to_string(), remaining: 1 }).is_empty());
    assert_eq!(e.registry().state_of(N2), Some(PeerState::Meshed));
    e.on_disconnected(N2, 0);
    assert_eq!(e.registry().state_of(N2), Some(PeerState::Stale));
    e.on_peer_observed(N3);
    e.on_peer_observed(N3);
    assert!(e.step(Event::DialFailed { peer: N3.to_string() }).is_empty());
    assert_eq!(e.registry().state_of(N3), Some(PeerState::Stale));
    assert_eq!(e.on_dial_failed("nobody").len(), 0);
}

#[test]
fn message_is_delivered_once_per_content() {
    let mut e = engine(N1, "node1");
    let acts = e.step(Event::Message { payload: "HELO FROM node2".to_string() });
    assert_eq!(acts, vec![Action::Deliver { payload: "HELO FROM node2".to_string() }]);
    e.on_message("HELO FROM node2");
    assert_eq!(e.delivered().len(), 1);
    assert!(e.delivered().contains("HELO FROM node2"));
    assert_eq!(e.local(), N1);
}

/// A few engines joined by an in-memory network: dials succeed, the DHT is
/// a map, and a publication reaches the meshed peers of the publisher.
struct Net {
    ids: Vec<&'static str>,
    names: Vec<&'static str>,
    nodes: Vec<Option<Engine>>,
    sinks: Vec<DeliveredSet>,
    dht: HashMap<String, String>,
}

impl Net {
    fn new(ids: Vec<&'static str>, names: Vec<&'static str>) -> Net {
        let nodes = ids.iter().zip(names.iter()).map(|(i, n)| Some(engine(i, n))).collect();
        let sinks = ids.iter().map(|_| DeliveredSet::new()).collect();
        Net { ids, names, nodes, sinks, dht: HashMap::new() }
    }

    fn index(&self, id: &str) -> usize {
        self.ids.iter().position(|i| *i == id).unwrap()
    }

    fn start(&mut self, k: usize) {
        self.nodes[k] = Some(engine(self.ids[k], self.names[k]));
        let addr = format!("/ip4/127.0.0.1/tcp/{}", 8001 + k);
        self.send(k, Event::ListenAddr { address: addr, tcp_port: Some(8001 + k as u16), quic_port: None, public_ip: None });
    }

    fn stop(&mut self, k: usize) {
        self.nodes[k] = None;
        for j in 0..self.nodes.len() {
            if j != k && self.nodes[j].is_some() {
                self.send(j, Event::Disconnected { peer: self.ids[k].to_string(), remaining: 0 });
            }
        }
    }

    fn send(&mut self, k: usize, ev: Event) {
        let acts = match self.nodes[k].as_mut() {
            Some(e) => e.step(ev),
            None => return,
        };
        for a in acts {
            match a {
                Action::PutRecord { key, value } => {
                    self.dht.insert(key, value);
                }
                Action::GetRecord { key } => {
                    if let Some(v) = self.dht.get(&key).cloned() {
                        self.send(k, Event::RecordFetched { key, value: v });
                    }
                }
                Action::Dial { peer, .. } => {
                    let j = self.index(&peer);
                    if self.nodes[j].is_some() {
                        self.send(k, Event::Connected { peer: peer.clone() });
                        self.send(j, Event::Connected { peer: self.ids[k].to_string() });
                    } else {
                        self.send(k, Event::DialFailed { peer: peer.clone() });
                    }
                }
                Action::Publish { payload } => {
                    for j in 0..self.nodes.len() {
                        let meshed = self.nodes[k].as_ref().unwrap().registry().state_of(self.ids[j]) == Some(PeerState::Meshed);
                        if j != k && meshed {
                            self.send(j, Event::Message { payload: payload.clone() });
                        }
                    }
                }
                Action::Deliver { payload } => self.sinks[k].insert(&payload),
                _ => {}
            }
        }
    }

    fn lan_discovery(&mut self) {
        for k in 0..self.ids.len() {
            for j in 0..self.ids.len() {
                if j != k {
                    let peer = self.ids[j].to_string();
                    for addr in [format!("/ip4/127.0.0.1/tcp/{}", 8001 + j), format!("/ip4/127.0.0.1/udp/{}/quic-v1", 8001 + j)] {
                        self.send(k, Event::AddressLearned { peer: peer.clone(), address: addr });
                    }
                }
            }
        }
    }

    fn tick_all(&mut self, timer: Timer) {
        for k in 0..self.nodes.len() {
            self.send(k, Event::Tick { timer });
        }
    }
}

#[test]
fn three_nodes_converge() {
    let mut net = Net::new(vec![N1, N2, N3], vec!["node1", "node2", "node3"]);
    for k in 0..3 {
        net.start(k);
    }
    net.lan_discovery();
    net.tick_all(Timer::Heartbeat);
    let all = ["HELO FROM node1", "HELO FROM node2", "HELO FROM node3"];
    for k in 0..3 {
        for (j, m) in all.iter().enumerate() {
            assert_eq!(net.sinks[k].contains(m), j != k, "node{} and {}", k + 1, m);
        }
        assert_eq!(net.sinks[k].len(), 2);
    }
}

#[test]
fn restarted_node_is_found_again() {
    let mut net = Net::new(vec![N1, N2], vec!["node1", "node2"]);
    net.start(0);
    net.start(1);
    net.lan_discovery();
    net.tick_all(Timer::Heartbeat);
    assert!(net.sinks[0].contains("HELO FROM node2"));
    assert!(net.sinks[1].contains("HELO FROM node1"));

    net.stop(1);
    assert_eq!(net.nodes[0].as_ref().unwrap().registry().state_of(N2), Some(PeerState::Stale));
    net.sinks[0].clear();
    net.start(1);
    net.tick_all(Timer::Heartbeat);
    assert!(!net.sinks[0].contains("HELO FROM node2"));

    net.tick_all(Timer::DiscoveryScan);
    assert_eq!(net.nodes[0].as_ref().unwrap().registry().state_of(N2), Some(PeerState::Meshed));
    net.tick_all(Timer::Heartbeat);
    assert!(net.sinks[0].contains("HELO FROM node2"));
}
