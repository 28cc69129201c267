use autobahn::message::ServerStateMessage;
use autobahn::server::peer::Peer;
use autobahn::server::peers_map::PeersMap;
use autobahn::util::Address;

fn s(x: &str) -> String {
    x.to_string()
}

fn state(uuid: &str, topics: &[&str]) -> ServerStateMessage {
    ServerStateMessage { message_type: 4, uuid: s(uuid), topics: topics.iter().map(|t| s(t)).collect() }
}

#[test]
fn test_add_peer_deduplicates_by_address() {
    let mut peers = PeersMap::new();
    let addr = Address::from_str("127.0.0.1:12345").unwrap();
    assert!(peers.add_peer(Peer::new(addr.clone())));
    assert!(!peers.add_peer(Peer::new(addr)));
    assert_eq!(peers.len(), 1);
}

#[test]
fn test_ensure_connections_sets_peer_id_and_topics() {
    let mut peers = PeersMap::new();
    peers.add_peer(Peer::new(Address::from_str("127.0.0.1:1").unwrap()));
    peers.complete_connection_at(0, &state("peer-1", &["t1"]));
    assert!(peers.contains_peer("peer-1"));
    let peer = peers.get_by_id("peer-1").expect("peer-1 missing");
    assert!(peer.contains_topic(&s("t1")));
    assert!(peer.is_connected());
}

#[test]
fn test_check_connection_attempts_and_remove_drops_failing_peers() {
    let mut peers = PeersMap::new();
    peers.add_peer(Peer::new(Address::from_str("127.0.0.1:2").unwrap()));
    peers.add_peer(Peer::new(Address::from_str("127.0.0.1:3").unwrap()));
    peers.record_connection_attempt_at(0);
    peers.record_connection_attempt_at(0);
    assert!(peers.peer(0).get_connection_attempts() >= 2);
    peers.check_connection_attempts_and_remove(1);
    assert_eq!(peers.len(), 1);
    assert_eq!(peers.peer(0).address().port, 3);
}

#[test]
fn test_update_topics_replaces_set() {
    let mut peer = Peer::new(Address::from_str("127.0.0.1:4").unwrap());
    peer.complete_connection(&state("p", &["a", "b"]));
    peer.update_topics(vec![s("c"), s("c")]);
    assert!(peer.contains_topic(&s("c")));
    assert!(!peer.contains_topic(&s("a")));
    assert!(!peer.contains_topic(&s("b")));
}

#[test]
fn test_ensure_connection_sets_id_topics_and_resets_attempts() {
    let mut peer = Peer::new(Address::from_str("127.0.0.1:5").unwrap());
    assert!(!peer.is_connected());
    peer.record_connection_attempt();
    assert_eq!(peer.get_connection_attempts(), 1);
    peer.complete_connection(&state("peer-1", &["t"]));
    assert!(peer.is_connected());
    assert_eq!(peer.server_id(), Some(s("peer-1")));
    assert!(peer.contains_topic(&s("t")));
    assert_eq!(peer.get_connection_attempts(), 0);
}

#[test]
fn test_close_websock_disconnects() {
    let mut peer = Peer::new(Address::from_str("127.0.0.1:6").unwrap());
    peer.complete_connection(&state("peer-3", &[]));
    assert!(peer.is_connected());
    peer.close_websock();
    assert!(!peer.is_connected());
    assert_eq!(peer.server_id(), Some(s("peer-3")));
}

#[test]
fn test_send_to_peers_filters_by_topic_interest() {
    let mut peers = PeersMap::new();
    peers.add_peer(Peer::new(Address::from_str("127.0.0.1:7").unwrap()));
    peers.add_peer(Peer::new(Address::from_str("127.0.0.1:8").unwrap()));
    peers.complete_connection_at(0, &state("peer-a", &["a"]));
    peers.complete_connection_at(1, &state("peer-b", &["b"]));
    assert_eq!(peers.peers_with_topic("a"), vec![0]);
    assert_eq!(peers.peers_with_topic("b"), vec![1]);
    assert!(peers.peers_with_topic("c").is_empty());
}

#[test]
fn peer_without_id_matches_empty_id() {
    let mut peers = PeersMap::new();
    peers.add_peer(Peer::new(Address::from_str("127.0.0.1:9").unwrap()));
    assert!(peers.contains_peer(""));
    assert!(!peers.contains_peer("x"));
    assert!(peers.get_by_id("").is_none());
    assert!(peers.get_by_addr(&Address::from_str("127.0.0.1:9").unwrap()).is_some());
    assert!(peers.get_by_addr(&Address::from_str("127.0.0.1:10").unwrap()).is_none());
}

#[test]
fn peers_compare_by_id() {
    let mut a = Peer::new(Address::from_str("h:1").unwrap());
    let mut b = Peer::new(Address::from_str("h:2").unwrap());
    assert!(a == b);
    a.complete_connection(&state("x", &[]));
    assert!(a != b);
    b.complete_connection(&state("x", &["t"]));
    assert!(a == b);
}
