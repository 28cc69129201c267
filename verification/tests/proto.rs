use autobahn::message::{
    AbstractMessage, HeartbeatMessage, MessageType, PublishMessage, ServerForwardMessage, ServerStateMessage,
    TopicMessage, UnsubscribeMessage, WireMessage,
};
use autobahn::util::proto::{build_proto_message, get_message, get_message_type, try_get_message_type};

fn publish(topic: &str, payload: &[u8]) -> PublishMessage {
    PublishMessage { message_type: MessageType::Publish.code(), topic: topic.to_string(), payload: payload.to_vec() }
}

#[test]
fn test_get_message_type_publish() {
    let msg = publish("t", b"p");
    let bytes = build_proto_message(&msg);
    assert_eq!(get_message_type(&bytes), MessageType::Publish);
}

#[test]
fn test_get_message_success() {
    let msg = publish("t", b"p");
    let bytes = build_proto_message(&msg);
    let decoded: PublishMessage = get_message(&bytes);
    assert_eq!(decoded.topic, "t");
    assert_eq!(decoded.payload, b"p");
}

#[test]
fn test_get_message_failure_returns_default() {
    let bad: &[u8] = b"not-a-proto";
    let decoded: PublishMessage = get_message(bad);
    assert_eq!(decoded.message_type, 0);
    assert_eq!(decoded.topic, "");
    assert!(decoded.payload.is_empty());
}

#[test]
fn publish_encoding_is_proto3() {
    let bytes = build_proto_message(&publish("t", b"p"));
    assert_eq!(bytes, vec![0x12, 0x01, b't', 0x1a, 0x01, b'p']);
    let sub = TopicMessage { message_type: MessageType::Subscribe.code(), topic: "ab".to_string() };
    assert_eq!(sub.encode(), vec![0x08, 0x01, 0x12, 0x02, b'a', b'b']);
    let neg = AbstractMessage { message_type: -1 };
    assert_eq!(neg.encode(), vec![0x08, 0xff, 0xff, 0xff, 0xff, 0xff, 0xff, 0xff, 0xff, 0xff, 0x01]);
}

#[test]
fn messages_read_back() {
    let p = publish("topic/ü", &[0, 1, 2, 255]);
    let q = PublishMessage::decode(&p.encode()).unwrap();
    assert_eq!((q.message_type, q.topic, q.payload), (0, "topic/ü".to_string(), vec![0, 1, 2, 255]));

    let s = ServerStateMessage { message_type: 4, uuid: "id".to_string(), topics: vec!["a".to_string(), "".to_string(), "c".to_string()] };
    let t = ServerStateMessage::decode(&s.encode()).unwrap();
    assert_eq!((t.message_type, t.uuid, t.topics), (4, "id".to_string(), vec!["a".to_string(), "".to_string(), "c".to_string()]));

    let h = HeartbeatMessage { message_type: 2, uuid: String::new(), topics: vec![] };
    let k = HeartbeatMessage::decode(&h.encode()).unwrap();
    assert_eq!((k.message_type, k.uuid, k.topics.len()), (2, String::new(), 0));

    let f = ServerForwardMessage { message_type: 5, payload: vec![9; 300] };
    let g = ServerForwardMessage::decode(&f.encode()).unwrap();
    assert_eq!((g.message_type, g.payload), (5, vec![9; 300]));

    let u = UnsubscribeMessage { message_type: 3, topic: "x".to_string() };
    let v = UnsubscribeMessage::decode(&u.encode()).unwrap();
    assert_eq!((v.message_type, v.topic), (3, "x".to_string()));

    let a = AbstractMessage { message_type: i32::MIN };
    assert_eq!(AbstractMessage::decode(&a.encode()).unwrap().message_type, i32::MIN);
}

#[test]
fn decoding_follows_protobuf_rules() {
    // The last value of a singular field wins; unknown fields are skipped.
    let bytes = [0x08, 0x01, 0x12, 0x01, b'a', 0x12, 0x01, b'b', 0x28, 0x07, 0x08, 0x00];
    let m = TopicMessage::decode(&bytes).unwrap();
    assert_eq!((m.message_type, m.topic), (0, "b".to_string()));
    // Invalid UTF-8 in a string field.
    assert!(TopicMessage::decode(&[0x12, 0x01, 0xff]).is_err());
    // A length beyond the end.
    assert!(TopicMessage::decode(&[0x12, 0x05, b'a']).is_err());
    // A known field with the wrong wire type.
    assert!(TopicMessage::decode(&[0x15, 0, 0, 0, 0]).is_err());
    // Field number zero.
    assert!(AbstractMessage::decode(&[0x00, 0x01]).is_err());
    // Wire types 6 and 7 do not exist.
    assert!(AbstractMessage::decode(&[0x0e]).is_err());
    // A truncated varint.
    assert!(AbstractMessage::decode(&[0x08, 0x80]).is_err());
    // An end-group key with no group.
    assert!(AbstractMessage::decode(&[0x14]).is_err());
    // An unknown group is skipped.
    assert_eq!(AbstractMessage::decode(&[0x23, 0x08, 0x01, 0x24, 0x08, 0x03]).unwrap().message_type, 3);
    // Fixed-width unknown fields are skipped.
    assert_eq!(AbstractMessage::decode(&[0x29, 1, 2, 3, 4, 5, 6, 7, 8, 0x2d, 1, 2, 3, 4, 0x08, 0x04]).unwrap().message_type, 4);
    // An empty buffer is the default message.
    assert_eq!(AbstractMessage::decode(&[]).unwrap().message_type, 0);
}

#[test]
fn message_kinds() {
    for t in [MessageType::Publish, MessageType::Subscribe, MessageType::Heartbeat, MessageType::Unsubscribe, MessageType::ServerState, MessageType::ServerForward] {
        assert_eq!(MessageType::try_from(t.code()), Some(t));
        let bytes = AbstractMessage { message_type: t.code() }.encode();
        assert_eq!(try_get_message_type(&bytes), Some(t));
    }
    assert_eq!(MessageType::try_from(6), None);
    assert_eq!(try_get_message_type(&AbstractMessage { message_type: 6 }.encode()), None);
    assert_eq!(try_get_message_type(b"bad"), None);
}
