use autobahn::message::{MessageType, PublishMessage, WireMessage};
use autobahn::util::low_level::ExpectedTypedBytes;

fn sample_publish() -> PublishMessage {
    PublishMessage { message_type: MessageType::Publish.code(), topic: "topic".to_string(), payload: b"payload".to_vec() }
}

#[test]
fn test_from_bytes_and_deref_expose_original_bytes() {
    let raw = sample_publish().encode();
    let typed = ExpectedTypedBytes::<PublishMessage>::from(raw.clone());
    assert_eq!(typed.as_ref(), raw.as_slice());
    assert_eq!(&*typed, raw.as_slice());
}

#[test]
fn test_into_bytes_returns_original_bytes() {
    let raw = sample_publish().encode();
    let typed = ExpectedTypedBytes::<PublishMessage>::from(raw.clone());
    let converted: Vec<u8> = typed.into_bytes();
    assert_eq!(converted, raw);
}

#[test]
fn test_buf_impl_reads_and_advances_underlying_bytes() {
    let raw = b"abc".to_vec();
    let mut typed = ExpectedTypedBytes::<PublishMessage>::from(raw);
    assert_eq!(typed.remaining(), 3);
    assert_eq!(typed.chunk(), b"abc");
    typed.advance(1);
    assert_eq!(typed.remaining(), 2);
    assert_eq!(typed.chunk(), b"bc");
    assert_eq!(typed.as_ref(), b"bc");
}

#[test]
fn typed_bytes_decode_as_their_label() {
    let typed = ExpectedTypedBytes::<PublishMessage>::from(sample_publish().encode());
    let m = typed.decode().unwrap();
    assert_eq!(m.topic, "topic");
    assert_eq!(m.payload, b"payload");
}
