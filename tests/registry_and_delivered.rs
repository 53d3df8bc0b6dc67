use raggy_p2p::delivered::DeliveredSet;
use raggy_p2p::registry::{PeerState, Registry};

const LOCAL: &str = "QmLocal";

#[test]
fn new_peer_becomes_candidate_without_dial() {
    let mut r = Registry::new(LOCAL.to_string());
    assert!(!r.observe("p1", Some("/ip4/1.1.1.1/tcp/1")));
    assert_eq!(r.state_of("p1"), Some(PeerState::Candidate));
    assert_eq!(r.addresses_of("p1"), vec!["/ip4/1.1.1.1/tcp/1".to_string()]);
    assert_eq!(r.len(), 1);
}

#[test]
fn candidate_is_dialed_on_next_fact() {
    let mut r = Registry::new(LOCAL.to_string());
    assert!(!r.observe("p1", None));
    assert!(r.addresses_of("p1").is_empty());
    assert!(r.observe("p1", Some("/ip4/1.1.1.1/tcp/1")));
    assert_eq!(r.state_of("p1"), Some(PeerState::Dialing));
    assert!(!r.observe("p1", Some("/ip4/1.1.1.1/tcp/2")));
    assert_eq!(r.state_of("p1"), Some(PeerState::Dialing));
    let mut addrs = r.addresses_of("p1");
    addrs.sort();
    assert_eq!(addrs, vec!["/ip4/1.1.1.1/tcp/1".to_string(), "/ip4/1.1.1.1/tcp/2".to_string()]);
}

#[test]
fn local_identifier_is_never_registered() {
    let mut r = Registry::new(LOCAL.to_string());
    assert!(!r.observe(LOCAL, Some("/ip4/1.1.1.1/tcp/1")));
    assert!(!r.observe(LOCAL, None));
    assert!(!r.request_dial(LOCAL, "/ip4/1.1.1.1/tcp/1"));
    assert!(!r.connected(LOCAL));
    r.lost(LOCAL);
    assert_eq!(r.state_of(LOCAL), None);
    assert_eq!(r.len(), 0);
    assert!(r.ids().is_empty());
}

#[test]
fn meshed_peer_is_not_redialed() {
    let mut r = Registry::new(LOCAL.to_string());
    assert!(r.request_dial("p1", "/ip4/1.1.1.1/tcp/1"));
    assert!(r.connected("p1"));
    assert_eq!(r.state_of("p1"), Some(PeerState::Meshed));
    assert!(!r.observe("p1", Some("/ip4/1.1.1.1/tcp/9")));
    assert!(!r.observe("p1", None));
    assert!(!r.request_dial("p1", "/ip4/1.1.1.1/tcp/1"));
    assert_eq!(r.state_of("p1"), Some(PeerState::Meshed));
    assert_eq!(r.addresses_of("p1").len(), 2);
}

#[test]
fn lost_peer_goes_stale_and_comes_back() {
    let mut r = Registry::new(LOCAL.to_string());
    r.connected("p1");
    r.lost("p1");
    assert_eq!(r.state_of("p1"), Some(PeerState::Stale));
    r.lost("p1");
    assert_eq!(r.state_of("p1"), Some(PeerState::Stale));
    assert!(r.observe("p1", None));
    assert_eq!(r.state_of("p1"), Some(PeerState::Dialing));
}

#[test]
fn losing_a_candidate_keeps_it_candidate() {
    let mut r = Registry::new(LOCAL.to_string());
    r.observe("p1", None);
    r.lost("p1");
    assert_eq!(r.state_of("p1"), Some(PeerState::Candidate));
    r.lost("unknown");
    assert_eq!(r.state_of("unknown"), None);
}

#[test]
fn connection_from_unknown_peer_meshes_it() {
    let mut r = Registry::new(LOCAL.to_string());
    assert!(r.connected("p9"));
    assert_eq!(r.state_of("p9"), Some(PeerState::Meshed));
    assert!(r.addresses_of("p9").is_empty());
}

#[test]
fn ids_lists_each_peer_once() {
    let mut r = Registry::new(LOCAL.to_string());
    r.observe("p1", None);
    r.observe("p2", Some("/ip4/1.1.1.1/tcp/1"));
    r.observe("p1", Some("/ip4/1.1.1.1/tcp/2"));
    let mut ids = r.ids();
    ids.sort();
    assert_eq!(ids, vec!["p1".to_string(), "p2".to_string()]);
    assert_eq!(r.local(), LOCAL);
}

#[test]
fn delivering_twice_keeps_one_entry() {
    let mut d = DeliveredSet::new();
    assert_eq!(d.len(), 0);
    d.insert("HELO FROM node2");
    d.insert("HELO FROM node2");
    assert_eq!(d.len(), 1);
    assert!(d.contains("HELO FROM node2"));
    assert!(!d.contains("HELO FROM node3"));
    d.insert("HELO FROM node3");
    assert_eq!(d.len(), 2);
    d.clear();
    assert_eq!(d.len(), 0);
    assert!(!d.contains("HELO FROM node2"));
}
