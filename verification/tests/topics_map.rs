use autobahn::message::{ServerStateMessage, WireMessage};
use autobahn::server::topics_map::TopicsMap;

fn s(x: &str) -> String {
    x.to_string()
}

fn subs(map: &TopicsMap, topic: &str) -> Option<Vec<String>> {
    map.get().iter().find(|e| e.topic == topic).map(|e| e.subscribers.clone())
}

#[test]
fn test_new_topics_map() {
    let map = TopicsMap::new();
    assert!(map.get().is_empty());
}

#[test]
fn test_push_subscriber() {
    let mut map = TopicsMap::new();
    map.push(s("test_topic"), s("ws-1"));
    assert!(map.contains_topic("test_topic"));
    assert_eq!(subs(&map, "test_topic").unwrap().len(), 1);
}

#[test]
fn test_remove_subscriber_from_topic() {
    let mut map = TopicsMap::new();
    map.push(s("test_topic"), s("ws-1"));
    map.remove_subscriber_from_topic("test_topic", &s("ws-1"));
    assert!(!map.contains_topic("test_topic"));
}

#[test]
fn test_remove_subscriber() {
    let mut map = TopicsMap::new();
    map.push(s("topic1"), s("ws1"));
    map.push(s("topic1"), s("ws2"));
    map.push(s("topic2"), s("ws1"));
    map.remove_subscriber(&s("ws1"));
    let topic1 = subs(&map, "topic1").unwrap();
    assert_eq!(topic1.len(), 1);
    assert!(topic1.iter().all(|w| w == "ws2"));
    assert!(!map.contains_topic("topic2"));
}

#[test]
fn test_remove_unused_topics() {
    let mut map = TopicsMap::new();
    map.push(s("topic1"), s("ws"));
    map.push(s("topic2"), s("ws"));
    map.remove_subscriber_from_topic("topic1", &s("ws"));
    assert!(!map.contains_topic("topic1"));
    assert!(map.contains_topic("topic2"));
}

#[test]
fn test_update_topics_for_subscriber_replaces_topic_membership() {
    let mut map = TopicsMap::new();
    map.push(s("old"), s("target"));
    map.push(s("shared"), s("target"));
    map.push(s("shared"), s("other"));
    map.update_topics_for_subscriber(&s("target"), vec![s("shared"), s("new")]);
    assert!(!map.contains_topic("old"), "subscriber should be removed from dropped topics");
    let shared = subs(&map, "shared").expect("shared topic missing");
    assert_eq!(shared.len(), 2);
    assert!(shared.iter().any(|w| w == "target"));
    assert!(shared.iter().any(|w| w == "other"));
    let new = subs(&map, "new").expect("new topic missing");
    assert_eq!(new.len(), 1);
    assert!(new.iter().any(|w| w == "target"));
}

#[test]
fn test_send_to_topic_prunes_failed_subscriber_but_keeps_working_ones() {
    let mut map = TopicsMap::new();
    map.push(s("topic"), s("ok"));
    map.push(s("topic"), s("bad"));
    assert_eq!(map.subscribers_of("topic"), vec![s("ok"), s("bad")]);
    map.prune_failed("topic", &vec![s("bad")]);
    assert_eq!(subs(&map, "topic").unwrap(), vec![s("ok")]);
}

#[test]
fn test_send_to_topic_removes_topic_if_last_subscriber_fails() {
    let mut map = TopicsMap::new();
    map.push(s("topic"), s("bad"));
    map.prune_failed("topic", &vec![s("bad")]);
    assert!(!map.contains_topic("topic"));
}

#[test]
fn test_send_to_topic_unknown_topic_is_noop() {
    let mut map = TopicsMap::new();
    assert!(map.subscribers_of("does-not-exist").is_empty());
    map.prune_failed("does-not-exist", &vec![s("x")]);
    assert!(map.get().is_empty());
}

#[test]
fn push_keeps_duplicates_and_order() {
    let mut map = TopicsMap::new();
    map.push(s("b"), s("w1"));
    map.push(s("a"), s("w1"));
    map.push(s("b"), s("w1"));
    assert_eq!(map.get_all_topics(), vec![s("b"), s("a")]);
    assert_eq!(subs(&map, "b").unwrap(), vec![s("w1"), s("w1")]);
}

#[test]
fn unique_subscribers_are_listed_once() {
    let mut map = TopicsMap::new();
    map.push(s("a"), s("w1"));
    map.push(s("a"), s("w2"));
    map.push(s("b"), s("w1"));
    map.push(s("c"), s("w3"));
    let mut all = map.get_all_unique_websocks();
    all.sort();
    assert_eq!(all, vec![s("w1"), s("w2"), s("w3")]);
}

#[test]
fn state_message_lists_topics() {
    let mut map = TopicsMap::new();
    map.push(s("a"), s("w1"));
    map.push(s("b"), s("w2"));
    let m = ServerStateMessage::decode(&map.to_proto(s("me"))).unwrap();
    assert_eq!((m.message_type, m.uuid, m.topics), (4, s("me"), vec![s("a"), s("b")]));
}

#[test]
fn update_with_repeated_new_topic() {
    let mut map = TopicsMap::new();
    map.update_topics_for_subscriber(&s("w"), vec![s("x"), s("x")]);
    assert_eq!(subs(&map, "x").unwrap(), vec![s("w"), s("w")]);
    map.update_topics_for_subscriber(&s("w"), vec![]);
    assert!(map.get().is_empty());
}
