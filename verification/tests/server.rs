use autobahn::message::{
    HeartbeatMessage, MessageType, PublishMessage, ServerForwardMessage, ServerStateMessage, TopicMessage,
    UnsubscribeMessage, WireMessage,
};
use autobahn::server::{Effect, HandleError, Outcome, Server};
use autobahn::util::Address;

fn s(x: &str) -> String {
    x.to_string()
}

fn addr(x: &str) -> Address {
    Address::from_str(x).unwrap()
}

fn subs(server: &Server, topic: &str) -> Option<Vec<String>> {
    server.topics_map().get().iter().find(|e| e.topic == topic).map(|e| e.subscribers.clone())
}

fn publish_bytes(topic: &str, payload: &[u8]) -> Vec<u8> {
    PublishMessage { message_type: 0, topic: s(topic), payload: payload.to_vec() }.encode()
}

fn connected(peer_uuid: &str, topics: &[&str]) -> Server {
    let mut server = Server::new(vec![addr("127.0.0.1:9")], addr("127.0.0.1:0"));
    let st = ServerStateMessage { message_type: 4, uuid: s(peer_uuid), topics: topics.iter().map(|t| s(t)).collect() };
    server.complete_connection_at(0, &st);
    server
}

#[test]
fn test_server_creation() {
    let self_addr = addr("127.0.0.1:8080");
    let server = Server::new(vec![addr("127.0.0.1:8081")], self_addr.clone());
    assert!(*server.address() == self_addr);
    assert_eq!(server.peers_map().len(), 1);
    assert!(server.topics_map().get_all_topics().is_empty());
    assert_eq!(server.uuid().len(), 36);
}

#[test]
fn test_peer_connection() {
    let peer_addr = addr("127.0.0.1:8081");
    let server = Server::new(vec![peer_addr.clone()], addr("127.0.0.1:8080"));
    let peer = server.peers_map().get_by_addr(&peer_addr).unwrap();
    assert!(!peer.is_connected());
}

#[test]
fn test_handle_heartbeat_updates_known_peer_topics() {
    let mut server = connected("peer-heartbeat", &["old"]);
    let hb = HeartbeatMessage { message_type: 2, uuid: s("peer-heartbeat"), topics: vec![s("fresh")] }.encode();
    assert!(server.handle_heartbeat(&hb, &s("ws")).is_ok());
    let peer = server.peers_map().get_by_id("peer-heartbeat").unwrap();
    assert!(peer.contains_topic(&s("fresh")));
    assert!(!peer.contains_topic(&s("old")));
}

#[test]
fn test_handle_heartbeat_registers_topics_for_local_socket_without_uuid() {
    let mut server = Server::new(vec![], addr("127.0.0.1:0"));
    let hb = HeartbeatMessage { message_type: 2, uuid: s(""), topics: vec![s("alpha"), s("beta")] }.encode();
    assert!(server.handle_heartbeat(&hb, &s("ws")).is_ok());
    assert_eq!(subs(&server, "alpha").unwrap().len(), 1);
    assert_eq!(subs(&server, "beta").unwrap().len(), 1);
}

#[test]
fn test_handle_heartbeat_unknown_peer_returns_err() {
    let mut server = Server::new(vec![], addr("127.0.0.1:0"));
    let hb = HeartbeatMessage { message_type: 2, uuid: s("missing"), topics: vec![s("topic")] }.encode();
    match server.handle_heartbeat(&hb, &s("ws")) {
        Err(HandleError::UnknownPeer { uuid }) => assert_eq!(uuid, "missing"),
        other => panic!("unexpected {:?}", other),
    }
}

#[test]
fn test_handle_heartbeat_bad_bytes_returns_err() {
    let mut server = Server::new(vec![], addr("127.0.0.1:0"));
    assert!(matches!(server.handle_heartbeat(b"bad", &s("ws")), Err(HandleError::Decode)));
}

#[test]
fn test_handle_publish_delivers_original_publish_bytes() {
    let server = Server::new(vec![], addr("127.0.0.1:0"));
    let bytes = publish_bytes("t", b"payload");
    let effects = server.handle_publish(&bytes);
    assert_eq!(effects.len(), 2);
    match &effects[0] {
        Effect::SendToSubscribers { topic, data } => {
            assert_eq!(topic, "t");
            assert_eq!(PublishMessage::decode(data).unwrap().payload, b"payload");
        }
        other => panic!("expected binary publish, got {:?}", other),
    }
    match &effects[1] {
        Effect::SendToPeersWithTopic { topic, data } => {
            assert_eq!(topic, "t");
            let fwd = ServerForwardMessage::decode(data).unwrap();
            assert_eq!(fwd.message_type, MessageType::ServerForward.code());
            assert_eq!(fwd.payload, bytes);
        }
        other => panic!("unexpected {:?}", other),
    }
}

#[test]
fn test_handle_publish_bad_bytes_is_ignored() {
    let server = Server::new(vec![], addr("127.0.0.1:0"));
    assert!(server.handle_publish(b"not-a-proto").is_empty());
}

#[test]
fn test_handle_server_forward_publish_delivers_to_local_subscribers() {
    let server = Server::new(vec![], addr("127.0.0.1:0"));
    let inner = publish_bytes("t", b"fwd");
    let fwd = ServerForwardMessage { message_type: 5, payload: inner.clone() }.encode();
    let effects = server.handle_server_forward(&fwd).unwrap();
    assert_eq!(effects.len(), 1);
    match &effects[0] {
        Effect::SendToSubscribers { topic, data } => {
            assert_eq!(topic, "t");
            assert_eq!(PublishMessage::decode(data).unwrap().payload, b"fwd");
        }
        other => panic!("expected binary publish, got {:?}", other),
    }
}

#[test]
fn test_handle_server_forward_non_publish_is_ignored() {
    let server = Server::new(vec![], addr("127.0.0.1:0"));
    let sub = TopicMessage { message_type: 1, topic: s("t") }.encode();
    let fwd = ServerForwardMessage { message_type: 5, payload: sub }.encode();
    assert!(server.handle_server_forward(&fwd).unwrap().is_empty());
}

#[test]
fn test_handle_server_forward_bad_bytes_returns_err() {
    let server = Server::new(vec![], addr("127.0.0.1:0"));
    assert!(server.handle_server_forward(b"bad").is_err());
}

#[test]
fn test_handle_server_state_updates_peer_topics() {
    let mut server = connected("peer-x", &["old"]);
    let st = ServerStateMessage { message_type: 4, uuid: s("peer-x"), topics: vec![s("new")] }.encode();
    assert!(server.handle_server_state(&st).is_ok());
    let peer = server.peers_map().get_by_id("peer-x").unwrap();
    assert!(peer.contains_topic(&s("new")));
    assert!(!peer.contains_topic(&s("old")));
}

#[test]
fn test_handle_server_state_unknown_peer_returns_err() {
    let mut server = Server::new(vec![], addr("127.0.0.1:0"));
    let st = ServerStateMessage { message_type: 4, uuid: s("missing"), topics: vec![] }.encode();
    assert!(server.handle_server_state(&st).is_err());
}

#[test]
fn test_handle_server_state_bad_bytes_returns_err() {
    let mut server = Server::new(vec![], addr("127.0.0.1:0"));
    assert!(server.handle_server_state(b"bad").is_err());
}

#[test]
fn test_handle_subscribe_adds_subscriber_to_topic() {
    let mut server = Server::new(vec![], addr("127.0.0.1:0"));
    let sub = TopicMessage { message_type: 1, topic: s("topic") }.encode();
    assert!(server.handle_subscribe(&sub, &s("ws")).is_ok());
    assert!(server.topics_map().contains_topic("topic"));
    assert_eq!(subs(&server, "topic").unwrap(), vec![s("ws")]);
}

#[test]
fn test_handle_subscribe_updates_peers_with_new_server_state() {
    let mut server = connected("peer-subscribe", &["old"]);
    let sub = TopicMessage { message_type: 1, topic: s("topic") }.encode();
    let effects = server.handle_subscribe(&sub, &s("ws")).unwrap();
    assert_eq!(effects.len(), 1);
    match &effects[0] {
        Effect::SendToEachPeer { data } => {
            let st = ServerStateMessage::decode(data).unwrap();
            assert_eq!(st.message_type, 4);
            assert_eq!(&st.uuid, server.uuid());
            assert_eq!(st.topics, vec![s("topic")]);
        }
        other => panic!("unexpected {:?}", other),
    }
}

#[test]
fn test_handle_subscribe_bad_bytes_returns_err() {
    let mut server = Server::new(vec![], addr("127.0.0.1:0"));
    assert!(server.handle_subscribe(b"bad", &s("ws")).is_err());
    assert!(server.topics_map().get_all_topics().is_empty());
}

#[test]
fn unsubscribe_leaves_topic_and_tells_peers() {
    let mut server = Server::new(vec![], addr("127.0.0.1:0"));
    let sub = TopicMessage { message_type: 1, topic: s("a") }.encode();
    server.handle_subscribe(&sub, &s("ws")).unwrap();
    let unsub = UnsubscribeMessage { message_type: 3, topic: s("a") }.encode();
    let effects = server.handle_unsubscribe(&unsub, &s("ws"));
    assert_eq!(effects.len(), 1);
    assert!(!server.topics_map().contains_topic("a"));
    assert!(server.handle_unsubscribe(b"bad", &s("ws")).is_empty());
}

#[test]
fn dispatch_by_kind() {
    let mut server = Server::new(vec![], addr("127.0.0.1:0"));
    let sub = TopicMessage { message_type: 1, topic: s("a") }.encode();
    assert!(matches!(server.handle_message(MessageType::Subscribe, &sub, &s("w")), Outcome::Done(_)));
    assert!(matches!(server.handle_message(MessageType::ServerState, b"bad", &s("w")), Outcome::Failed(HandleError::Decode)));
    let unknown = ServerForwardMessage { message_type: 5, payload: vec![0x08, 0x09] }.encode();
    assert!(matches!(server.handle_message(MessageType::ServerForward, &unknown, &s("w")), Outcome::Halted));
    match server.handle_message(MessageType::Publish, &publish_bytes("a", b"x"), &s("w")) {
        Outcome::Done(e) => assert_eq!(e.len(), 2),
        other => panic!("unexpected {:?}", other),
    }
}

#[test]
fn client_connect_and_disconnect() {
    let mut server = Server::new(vec![], addr("127.0.0.1:0"));
    let hello = server.handle_client_connected(s("c1"));
    let st = ServerStateMessage::decode(&hello).unwrap();
    assert_eq!(st.message_type, 4);
    server.handle_client_connected(s("c1"));
    assert_eq!(server.all_websockets(), &vec![s("c1")]);
    let sub = TopicMessage { message_type: 1, topic: s("a") }.encode();
    server.handle_subscribe(&sub, &s("c1")).unwrap();
    let effects = server.handle_client_disconnected(&s("c1"));
    assert!(matches!(&effects[0], Effect::SendToAllPeers { .. }));
    assert!(server.topics_map().get_all_topics().is_empty());
}

#[test]
fn forwarded_publish_reaches_remote_subscribers_once() {
    let origin = Server::new(vec![], addr("127.0.0.1:0"));
    let remote = Server::new(vec![], addr("127.0.0.1:1"));
    let bytes = publish_bytes("shared", b"from-peer");
    let effects = origin.handle_publish(&bytes);
    let fwd = match &effects[1] {
        Effect::SendToPeersWithTopic { data, .. } => data.clone(),
        other => panic!("unexpected {:?}", other),
    };
    let remote_effects = remote.handle_server_forward(&fwd).unwrap();
    assert_eq!(remote_effects.len(), 1);
    match &remote_effects[0] {
        Effect::SendToSubscribers { topic, data } => {
            assert_eq!(topic, "shared");
            assert_eq!(data, &bytes);
        }
        other => panic!("unexpected {:?}", other),
    }
}

#[test]
fn heartbeat_and_pruning_rounds() {
    let mut server = Server::new(vec![addr("127.0.0.1:9"), addr("127.0.0.1:10")], addr("127.0.0.1:0"));
    for _ in 0..6 {
        server.record_connection_attempt_at(0);
    }
    server.after_connection_round(false);
    assert_eq!(server.peers_map().len(), 2);
    server.after_connection_round(true);
    assert_eq!(server.peers_map().len(), 1);
    let hb = HeartbeatMessage::decode(&server.heartbeat_message()).unwrap();
    assert_eq!(hb.message_type, 2);
    assert_eq!(&hb.uuid, server.uuid());
    assert!(server.add_peer(addr("127.0.0.1:11")));
    assert!(!server.add_peer(addr("127.0.0.1:11")));
}

#[test]
fn server_id_is_a_random_uuid() {
    let server = Server::new(vec![], addr("127.0.0.1:8080"));
    let id: Vec<char> = server.uuid().chars().collect();
    assert_eq!(id.len(), 36);
    for (i, c) in id.iter().enumerate() {
        if i == 8 || i == 13 || i == 18 || i == 23 {
            assert_eq!(*c, '-');
        } else {
            assert!(c.is_ascii_digit() || ('a'..='f').contains(c));
        }
    }
    assert_eq!(id[14], '4');
    assert!(['8', '9', 'a', 'b'].contains(&id[19]));
}
