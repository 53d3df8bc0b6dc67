use raggy_p2p::record::{entry_owner, parse_record, record_key_of, AddressRecord};
use raggy_p2p::text::{decimal_text, join_text, same_text, split_text};

const PEER_A: &str = "QmNnooDu7bfjPFoTZYxMNLWUQJyrVwtbZg5gBMjTezGAJN";

fn strings(xs: &[&str]) -> Vec<String> {
    xs.iter().map(|s| s.to_string()).collect()
}

#[test]
fn decimal_text_writes_ports() {
    assert_eq!(decimal_text(0), "0");
    assert_eq!(decimal_text(7), "7");
    assert_eq!(decimal_text(8001), "8001");
    assert_eq!(decimal_text(65535), "65535");
}

#[test]
fn join_text_puts_commas_between_entries() {
    assert_eq!(join_text(&strings(&[])), "");
    assert_eq!(join_text(&strings(&["a"])), "a");
    assert_eq!(join_text(&strings(&["/ip4/1.2.3.4/tcp/1", "/ip4/5.6.7.8/tcp/2"])), "/ip4/1.2.3.4/tcp/1,/ip4/5.6.7.8/tcp/2");
}

#[test]
fn split_text_skips_empty_pieces() {
    assert_eq!(split_text(""), strings(&[]));
    assert_eq!(split_text(",,"), strings(&[]));
    assert_eq!(split_text("a,,b,"), strings(&["a", "b"]));
    assert_eq!(split_text("only"), strings(&["only"]));
}

#[test]
fn same_text_compares_characters() {
    assert!(same_text("abc", "abc"));
    assert!(!same_text("abc", "abd"));
    assert!(!same_text("abc", "ab"));
    assert!(same_text("", ""));
}

#[test]
fn record_key_is_namespaced() {
    assert_eq!(record_key_of(PEER_A), format!("/raggy/peers/{}", PEER_A));
}

#[test]
fn self_record_suffixes_owner_and_skips_bad_addresses() {
    let addrs = strings(&["/ip4/127.0.0.1/tcp/8001", "bad,address", "", "/ip4/1.2.3.4/udp/8001/quic-v1"]);
    let rec = AddressRecord::build(PEER_A, &addrs);
    assert_eq!(rec.owner, PEER_A);
    assert_eq!(
        rec.entries,
        vec![
            format!("/ip4/127.0.0.1/tcp/8001/p2p/{}", PEER_A),
            format!("/ip4/1.2.3.4/udp/8001/quic-v1/p2p/{}", PEER_A),
        ]
    );
    assert_eq!(rec.key(), format!("/raggy/peers/{}", PEER_A));
}

#[test]
fn published_record_reads_back() {
    let addrs = strings(&["/ip4/127.0.0.1/tcp/8001", "/ip4/10.0.0.2/tcp/8001", "/ip4/1.2.3.4/udp/9/quic-v1"]);
    let rec = AddressRecord::build(PEER_A, &addrs);
    let value = rec.value();
    assert_eq!(value.matches(',').count(), 2);
    let back = parse_record(&value);
    let mut a = back.clone();
    let mut b = rec.entries.clone();
    a.sort();
    b.sort();
    assert_eq!(a, b);
    assert_eq!(back, rec.entries);
}

#[test]
fn empty_record_reads_back_empty() {
    let rec = AddressRecord::build(PEER_A, &Vec::new());
    assert_eq!(rec.value(), "");
    assert!(parse_record(&rec.value()).is_empty());
}

#[test]
fn entry_owner_reads_p2p_component() {
    let entry = format!("/ip4/104.131.131.82/tcp/4001/p2p/{}", PEER_A);
    assert_eq!(entry_owner(&entry), Some(PEER_A.to_string()));
    assert_eq!(entry_owner(&format!("/dnsaddr/bootstrap.libp2p.io/p2p/{}", PEER_A)), Some(PEER_A.to_string()));
}

#[test]
fn entry_owner_is_none_without_owner_or_when_malformed() {
    assert_eq!(entry_owner("/ip4/104.131.131.82/tcp/4001"), None);
    assert_eq!(entry_owner("not a multiaddr"), None);
    assert_eq!(entry_owner("/ip4/999.1.1.1/tcp/1"), None);
    assert_eq!(entry_owner("/ip4/1.2.3.4/tcp/1/p2p/0invalid"), None);
}
