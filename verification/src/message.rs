//! The server's messages and their encoding. Every message starts with an
//! `int32` field 1 that names its kind; the other fields follow in tag order.

pub mod wire;

use vstd::prelude::*;
use crate::util::lists::texts;
use vstd::utf8::{valid_utf8, decode_utf8, encode_utf8, encode_utf8_valid_utf8, encode_utf8_decode_utf8};
use self::wire::{
    decode_raw, decode_raw_spec, RawFields, RawMessage, ranges_view, ranges_ok, int32_field,
    bytes_field, repeated_field, push_int32_field, push_bytes_field, push_delimited,
    delimited_field, lemma_decode_int32_field, lemma_decode_delimited_field, decode_fields,
    raw_step, empty_raw,
};

verus! {

/// The kinds of message, by the code that field 1 carries.
#[derive(Clone, Copy, Debug, PartialEq, Eq, Structural)]
pub enum MessageType {
    Publish,
    Subscribe,
    Heartbeat,
    Unsubscribe,
    ServerState,
    ServerForward,
}

/// The code of each kind of message.
pub open spec fn message_type_code(t: MessageType) -> i32 {
    match t {
        MessageType::Publish => 0,
        MessageType::Subscribe => 1,
        MessageType::Heartbeat => 2,
        MessageType::Unsubscribe => 3,
        MessageType::ServerState => 4,
        MessageType::ServerForward => 5,
    }
}

/// The kind of message a code names, if any.
pub open spec fn message_type_of(code: i32) -> Option<MessageType> {
    if code == 0 {
        Some(MessageType::Publish)
    } else if code == 1 {
        Some(MessageType::Subscribe)
    } else if code == 2 {
        Some(MessageType::Heartbeat)
    } else if code == 3 {
        Some(MessageType::Unsubscribe)
    } else if code == 4 {
        Some(MessageType::ServerState)
    } else if code == 5 {
        Some(MessageType::ServerForward)
    } else {
        None
    }
}

impl MessageType {
    pub fn code(&self) -> (r: i32)
        ensures
            r == message_type_code(*self),
    {
        match self {
            MessageType::Publish => 0,
            MessageType::Subscribe => 1,
            MessageType::Heartbeat => 2,
            MessageType::Unsubscribe => 3,
            MessageType::ServerState => 4,
            MessageType::ServerForward => 5,
        }
    }

    /// The kind of message that a code names, `None` for an unknown code.
    pub fn try_from(code: i32) -> (r: Option<MessageType>)
        ensures
            r == message_type_of(code),
    {
        if code == 0 {
            Some(MessageType::Publish)
        } else if code == 1 {
            Some(MessageType::Subscribe)
        } else if code == 2 {
            Some(MessageType::Heartbeat)
        } else if code == 3 {
            Some(MessageType::Unsubscribe)
        } else if code == 4 {
            Some(MessageType::ServerState)
        } else if code == 5 {
            Some(MessageType::ServerForward)
        } else {
            None
        }
    }
}

/// Each code names the kind whose code it is.
pub proof fn lemma_message_type_code_round_trip(t: MessageType)
    ensures
        message_type_of(message_type_code(t)) == Some(t),
{
}

/// Bytes that are not a message of the expected kind.
#[derive(Debug)]
pub struct DecodeError {}

/// Converts bytes to text with `String::from_utf8`. Trusted: std documents
/// that it succeeds exactly on valid UTF-8 and keeps the bytes.
#[verifier::external_body]
fn string_from_utf8(bytes: Vec<u8>) -> (r: Option<String>)
    ensures
        r is Some <==> valid_utf8(bytes@),
        r matches Some(s) ==> s@ == decode_utf8(bytes@),
{
    String::from_utf8(bytes).ok()
}

/// The value of a singular `bytes` field: its last occurrence, or empty.
pub open spec fn last_or_empty(bs: Seq<Seq<u8>>) -> Seq<u8> {
    if bs.len() == 0 { Seq::empty() } else { bs.last() }
}

/// Every occurrence of a `string` field is valid UTF-8.
pub open spec fn all_utf8(bs: Seq<Seq<u8>>) -> bool {
    forall|i: int| 0 <= i < bs.len() ==> valid_utf8(#[trigger] bs[i])
}

/// The text of every occurrence of a repeated `string` field.
pub open spec fn decode_all_utf8(bs: Seq<Seq<u8>>) -> Seq<Seq<char>> {
    bs.map_values(|b: Seq<u8>| decode_utf8(b))
}

/// The bytes of every text of a repeated `string` field.
pub open spec fn encode_all_utf8(ts: Seq<Seq<char>>) -> Seq<Seq<u8>> {
    ts.map_values(|t: Seq<char>| encode_utf8(t))
}

/// Copies the bytes of a range.
fn range_bytes(buf: &[u8], r: (usize, usize)) -> (out: Vec<u8>)
    requires
        r.0 <= r.1 <= buf@.len(),
    ensures
        out@ == buf@.subrange(r.0 as int, r.1 as int),
{
    vstd::slice::slice_to_vec(vstd::slice::slice_subrange(buf, r.0, r.1))
}

/// The last of a list of ranges as bytes, or no bytes.
fn last_range_bytes(buf: &[u8], rs: &Vec<(usize, usize)>) -> (out: Vec<u8>)
    requires
        ranges_ok(rs@, buf@.len()),
    ensures
        out@ == last_or_empty(ranges_view(rs@, buf@)),
{
    if rs.len() == 0 {
        Vec::new()
    } else {
        let r = rs[rs.len() - 1];
        assert(ranges_ok(rs@, buf@.len()) ==> r.0 <= r.1 && r.1 <= buf@.len());
        range_bytes(buf, r)
    }
}

/// Reads a singular `string` field: every occurrence must be UTF-8, the last
/// one wins.
fn string_field_value(buf: &[u8], rs: &Vec<(usize, usize)>) -> (out: Option<String>)
    requires
        ranges_ok(rs@, buf@.len()),
    ensures
        out is Some <==> all_utf8(ranges_view(rs@, buf@)),
        out matches Some(s) ==> s@ == decode_utf8(last_or_empty(ranges_view(rs@, buf@))),
{
    let ghost v = ranges_view(rs@, buf@);
    let mut i: usize = 0;
    let mut last: Option<String> = None;
    while i < rs.len()
        invariant
            i <= rs@.len(),
            ranges_ok(rs@, buf@.len()),
            v == ranges_view(rs@, buf@),
            forall|j: int| 0 <= j < i ==> valid_utf8(#[trigger] v[j]),
            i > 0 ==> (last matches Some(s) && s@ == decode_utf8(v[i - 1])),
            i == 0 ==> last is None,
        decreases rs@.len() - i,
    {
        let r = rs[i];
        assert(r.0 <= r.1 && r.1 <= buf@.len());
        assert(v[i as int] == buf@.subrange(r.0 as int, r.1 as int));
        match string_from_utf8(range_bytes(buf, r)) {
            Some(s) => {
                last = Some(s);
            },
            None => {
                assert(!valid_utf8(v[i as int]));
                return None;
            },
        }
        i = i + 1;
    }
    assert(v.len() == rs@.len());
    match last {
        Some(s) => Some(s),
        None => {
            proof {
                assert(decode_utf8(Seq::<u8>::empty()) =~= Seq::<char>::empty());
            }
            Some(String::new())
        },
    }
}

/// Reads a repeated `string` field.
fn strings_field_value(buf: &[u8], rs: &Vec<(usize, usize)>) -> (out: Option<Vec<String>>)
    requires
        ranges_ok(rs@, buf@.len()),
    ensures
        out is Some <==> all_utf8(ranges_view(rs@, buf@)),
        out matches Some(ss) ==> texts(ss@) == decode_all_utf8(ranges_view(rs@, buf@)),
{
    let ghost v = ranges_view(rs@, buf@);
    let mut i: usize = 0;
    let mut out: Vec<String> = Vec::new();
    while i < rs.len()
        invariant
            i <= rs@.len(),
            ranges_ok(rs@, buf@.len()),
            v == ranges_view(rs@, buf@),
            forall|j: int| 0 <= j < i ==> valid_utf8(#[trigger] v[j]),
            texts(out@) =~= decode_all_utf8(v.take(i as int)),
        decreases rs@.len() - i,
    {
        let r = rs[i];
        assert(r.0 <= r.1 && r.1 <= buf@.len());
        assert(v[i as int] == buf@.subrange(r.0 as int, r.1 as int));
        match string_from_utf8(range_bytes(buf, r)) {
            Some(s) => {
                let ghost before = out@;
                out.push(s);
                proof {
                    assert(v.take(i + 1) =~= v.take(i as int).push(v[i as int]));
                    assert(texts(out@) =~= texts(before).push(s@));
                    assert(decode_all_utf8(v.take(i + 1)) =~= decode_all_utf8(v.take(i as int)).push(decode_utf8(v[i as int])));
                }
            },
            None => {
                assert(!valid_utf8(v[i as int]));
                return None;
            },
        }
        i = i + 1;
    }
    proof {
        assert(v.len() == rs@.len());
        assert(v.take(i as int) =~= v);
    }
    Some(out)
}

/// A message of the kinds that carry only their code.
#[derive(Debug)]
pub struct AbstractMessage {
    pub message_type: i32,
}

/// A message that names a topic: a subscription.
#[derive(Debug)]
pub struct TopicMessage {
    pub message_type: i32,
    pub topic: String,
}

/// A message that names a topic: an unsubscription.
#[derive(Debug)]
pub struct UnsubscribeMessage {
    pub message_type: i32,
    pub topic: String,
}

/// A payload published on a topic.
#[derive(Debug)]
pub struct PublishMessage {
    pub message_type: i32,
    pub topic: String,
    pub payload: Vec<u8>,
}

/// A client's or a server's periodic list of topics.
#[derive(Debug)]
pub struct HeartbeatMessage {
    pub message_type: i32,
    pub uuid: String,
    pub topics: Vec<String>,
}

/// A server's identity and the topics its clients hold.
#[derive(Debug)]
pub struct ServerStateMessage {
    pub message_type: i32,
    pub uuid: String,
    pub topics: Vec<String>,
}

/// A message that one server hands on to another, as its encoded bytes.
#[derive(Debug)]
pub struct ServerForwardMessage {
    pub message_type: i32,
    pub payload: Vec<u8>,
}

/// The plain values of a topic message.
pub struct TopicView {
    pub message_type: i32,
    pub topic: Seq<char>,
}

/// The plain values of a publish message.
pub struct PublishView {
    pub message_type: i32,
    pub topic: Seq<char>,
    pub payload: Seq<u8>,
}

/// The plain values of a heartbeat or server-state message.
pub struct StateView {
    pub message_type: i32,
    pub uuid: Seq<char>,
    pub topics: Seq<Seq<char>>,
}

/// The plain values of a forward message.
pub struct ForwardView {
    pub message_type: i32,
    pub payload: Seq<u8>,
}

impl View for AbstractMessage {
    type V = i32;

    open spec fn view(&self) -> i32 {
        self.message_type
    }
}

impl View for TopicMessage {
    type V = TopicView;

    open spec fn view(&self) -> TopicView {
        TopicView { message_type: self.message_type, topic: self.topic@ }
    }
}

impl View for UnsubscribeMessage {
    type V = TopicView;

    open spec fn view(&self) -> TopicView {
        TopicView { message_type: self.message_type, topic: self.topic@ }
    }
}

impl View for PublishMessage {
    type V = PublishView;

    open spec fn view(&self) -> PublishView {
        PublishView { message_type: self.message_type, topic: self.topic@, payload: self.payload@ }
    }
}

impl View for HeartbeatMessage {
    type V = StateView;

    open spec fn view(&self) -> StateView {
        StateView { message_type: self.message_type, uuid: self.uuid@, topics: texts(self.topics@) }
    }
}

impl View for ServerStateMessage {
    type V = StateView;

    open spec fn view(&self) -> StateView {
        StateView { message_type: self.message_type, uuid: self.uuid@, topics: texts(self.topics@) }
    }
}

impl View for ServerForwardMessage {
    type V = ForwardView;

    open spec fn view(&self) -> ForwardView {
        ForwardView { message_type: self.message_type, payload: self.payload@ }
    }
}

/// The code of the message encoded in `s`.
pub open spec fn decode_abstract(s: Seq<u8>) -> Option<i32> {
    match decode_raw_spec(1, s) {
        Some(r) => Some(r.message_type),
        None => None,
    }
}

/// The topic message encoded in `s`.
pub open spec fn decode_topic(s: Seq<u8>) -> Option<TopicView> {
    match decode_raw_spec(2, s) {
        Some(r) => if all_utf8(r.second) {
            Some(TopicView { message_type: r.message_type, topic: decode_utf8(last_or_empty(r.second)) })
        } else {
            None
        },
        None => None,
    }
}

/// The publish message encoded in `s`.
pub open spec fn decode_publish(s: Seq<u8>) -> Option<PublishView> {
    match decode_raw_spec(3, s) {
        Some(r) => if all_utf8(r.second) {
            Some(PublishView {
                message_type: r.message_type,
                topic: decode_utf8(last_or_empty(r.second)),
                payload: last_or_empty(r.third),
            })
        } else {
            None
        },
        None => None,
    }
}

/// The heartbeat or server-state message encoded in `s`.
pub open spec fn decode_state(s: Seq<u8>) -> Option<StateView> {
    match decode_raw_spec(3, s) {
        Some(r) => if all_utf8(r.second) && all_utf8(r.third) {
            Some(StateView {
                message_type: r.message_type,
                uuid: decode_utf8(last_or_empty(r.second)),
                topics: decode_all_utf8(r.third),
            })
        } else {
            None
        },
        None => None,
    }
}

/// The forward message encoded in `s`.
pub open spec fn decode_forward(s: Seq<u8>) -> Option<ForwardView> {
    match decode_raw_spec(2, s) {
        Some(r) => Some(ForwardView { message_type: r.message_type, payload: last_or_empty(r.second) }),
        None => None,
    }
}

pub open spec fn encode_abstract(v: i32) -> Seq<u8> {
    int32_field(1, v)
}

pub open spec fn encode_topic(v: TopicView) -> Seq<u8> {
    int32_field(1, v.message_type) + bytes_field(2, encode_utf8(v.topic))
}

pub open spec fn encode_publish(v: PublishView) -> Seq<u8> {
    int32_field(1, v.message_type) + bytes_field(2, encode_utf8(v.topic)) + bytes_field(3, v.payload)
}

pub open spec fn encode_state(v: StateView) -> Seq<u8> {
    int32_field(1, v.message_type) + bytes_field(2, encode_utf8(v.uuid)) + repeated_field(3, encode_all_utf8(v.topics))
}

pub open spec fn encode_forward(v: ForwardView) -> Seq<u8> {
    int32_field(1, v.message_type) + bytes_field(2, v.payload)
}

/// A message with an encoding.
pub trait WireMessage: Sized + View {
    /// The message that `bytes` encode, if they encode one.
    spec fn decode_spec(bytes: Seq<u8>) -> Option<Self::V>;

    /// The bytes of a message.
    spec fn encode_spec(v: Self::V) -> Seq<u8>;

    /// The message with every field at its default.
    spec fn default_spec() -> Self::V;

    fn decode(bytes: &[u8]) -> (r: Result<Self, DecodeError>)
        ensures
            match r {
                Ok(m) => Self::decode_spec(bytes@) == Some(m@),
                Err(_) => Self::decode_spec(bytes@) is None,
            },
    ;

    fn encode(&self) -> (r: Vec<u8>)
        ensures
            r@ == Self::encode_spec(self@),
    ;

    fn default_message() -> (r: Self)
        ensures
            r@ == Self::default_spec(),
    ;
}

/// Appends a `string` field, leaving out an empty one.
fn push_string_field(out: &mut Vec<u8>, tag: u64, s: &String)
    requires
        1 <= tag <= 3,
    ensures
        final(out)@ == old(out)@ + bytes_field(tag as nat, encode_utf8(s@)),
{
    push_bytes_field(out, tag, s.as_str().as_bytes());
}

/// Appends a repeated `string` field.
fn push_strings_field(out: &mut Vec<u8>, tag: u64, ss: &Vec<String>)
    requires
        1 <= tag <= 3,
    ensures
        final(out)@ == old(out)@ + repeated_field(tag as nat, encode_all_utf8(texts(ss@))),
{
    let ghost all = encode_all_utf8(texts(ss@));
    let mut i: usize = 0;
    proof {
        assert(all.take(0) =~= Seq::<Seq<u8>>::empty());
        assert(old(out)@ + repeated_field(tag as nat, all.take(0)) =~= old(out)@);
    }
    while i < ss.len()
        invariant
            1 <= tag <= 3,
            i <= ss@.len(),
            all == encode_all_utf8(texts(ss@)),
            out@ == old(out)@ + repeated_field(tag as nat, all.take(i as int)),
        decreases ss@.len() - i,
    {
        let ghost before = out@;
        push_delimited(out, tag, ss[i].as_str().as_bytes());
        proof {
            assert(all[i as int] == encode_utf8(ss@[i as int]@));
            assert(all.take(i + 1).drop_last() =~= all.take(i as int));
            assert(out@ =~= old(out)@ + repeated_field(tag as nat, all.take(i + 1)));
        }
        i = i + 1;
    }
    proof {
        assert(all.len() == ss@.len());
        assert(all.take(i as int) =~= all);
    }
}

impl WireMessage for AbstractMessage {
    open spec fn decode_spec(bytes: Seq<u8>) -> Option<i32> {
        decode_abstract(bytes)
    }

    open spec fn encode_spec(v: i32) -> Seq<u8> {
        encode_abstract(v)
    }

    open spec fn default_spec() -> i32 {
        0
    }

    fn decode(bytes: &[u8]) -> (r: Result<Self, DecodeError>) {
        match decode_raw(bytes, 1) {
            Some(m) => Ok(AbstractMessage { message_type: m.message_type }),
            None => Err(DecodeError {}),
        }
    }

    fn encode(&self) -> (r: Vec<u8>) {
        let mut out = Vec::new();
        push_int32_field(&mut out, 1, self.message_type);
        assert(out@ =~= encode_abstract(self.message_type));
        out
    }

    fn default_message() -> (r: Self) {
        AbstractMessage { message_type: 0 }
    }
}

impl WireMessage for TopicMessage {
    open spec fn decode_spec(bytes: Seq<u8>) -> Option<TopicView> {
        decode_topic(bytes)
    }

    open spec fn encode_spec(v: TopicView) -> Seq<u8> {
        encode_topic(v)
    }

    open spec fn default_spec() -> TopicView {
        TopicView { message_type: 0, topic: Seq::empty() }
    }

    fn decode(bytes: &[u8]) -> (r: Result<Self, DecodeError>) {
        match decode_raw(bytes, 2) {
            Some(m) => match string_field_value(bytes, &m.second) {
                Some(topic) => Ok(TopicMessage { message_type: m.message_type, topic }),
                None => Err(DecodeError {}),
            },
            None => Err(DecodeError {}),
        }
    }

    fn encode(&self) -> (r: Vec<u8>) {
        let mut out = Vec::new();
        push_int32_field(&mut out, 1, self.message_type);
        push_string_field(&mut out, 2, &self.topic);
        assert(out@ =~= encode_topic(self@));
        out
    }

    fn default_message() -> (r: Self) {
        TopicMessage { message_type: 0, topic: String::new() }
    }
}

impl WireMessage for UnsubscribeMessage {
    open spec fn decode_spec(bytes: Seq<u8>) -> Option<TopicView> {
        decode_topic(bytes)
    }

    open spec fn encode_spec(v: TopicView) -> Seq<u8> {
        encode_topic(v)
    }

    open spec fn default_spec() -> TopicView {
        TopicView { message_type: 0, topic: Seq::empty() }
    }

    fn decode(bytes: &[u8]) -> (r: Result<Self, DecodeError>) {
        match decode_raw(bytes, 2) {
            Some(m) => match string_field_value(bytes, &m.second) {
                Some(topic) => Ok(UnsubscribeMessage { message_type: m.message_type, topic }),
                None => Err(DecodeError {}),
            },
            None => Err(DecodeError {}),
        }
    }

    fn encode(&self) -> (r: Vec<u8>) {
        let mut out = Vec::new();
        push_int32_field(&mut out, 1, self.message_type);
        push_string_field(&mut out, 2, &self.topic);
        assert(out@ =~= encode_topic(self@));
        out
    }

    fn default_message() -> (r: Self) {
        UnsubscribeMessage { message_type: 0, topic: String::new() }
    }
}

impl WireMessage for PublishMessage {
    open spec fn decode_spec(bytes: Seq<u8>) -> Option<PublishView> {
        decode_publish(bytes)
    }

    open spec fn encode_spec(v: PublishView) -> Seq<u8> {
        encode_publish(v)
    }

    open spec fn default_spec() -> PublishView {
        PublishView { message_type: 0, topic: Seq::empty(), payload: Seq::empty() }
    }

    fn decode(bytes: &[u8]) -> (r: Result<Self, DecodeError>) {
        match decode_raw(bytes, 3) {
            Some(m) => match string_field_value(bytes, &m.second) {
                Some(topic) => {
                    let payload = last_range_bytes(bytes, &m.third);
                    Ok(PublishMessage { message_type: m.message_type, topic, payload })
                },
                None => Err(DecodeError {}),
            },
            None => Err(DecodeError {}),
        }
    }

    fn encode(&self) -> (r: Vec<u8>) {
        let mut out = Vec::new();
        push_int32_field(&mut out, 1, self.message_type);
        push_string_field(&mut out, 2, &self.topic);
        push_bytes_field(&mut out, 3, self.payload.as_slice());
        assert(out@ =~= encode_publish(self@));
        out
    }

    fn default_message() -> (r: Self) {
        PublishMessage { message_type: 0, topic: String::new(), payload: Vec::new() }
    }
}

impl WireMessage for HeartbeatMessage {
    open spec fn decode_spec(bytes: Seq<u8>) -> Option<StateView> {
        decode_state(bytes)
    }

    open spec fn encode_spec(v: StateView) -> Seq<u8> {
        encode_state(v)
    }

    open spec fn default_spec() -> StateView {
        StateView { message_type: 0, uuid: Seq::empty(), topics: Seq::empty() }
    }

    fn decode(bytes: &[u8]) -> (r: Result<Self, DecodeError>) {
        match decode_raw(bytes, 3) {
            Some(m) => match (string_field_value(bytes, &m.second), strings_field_value(bytes, &m.third)) {
                (Some(uuid), Some(topics)) => Ok(HeartbeatMessage { message_type: m.message_type, uuid, topics }),
                _ => Err(DecodeError {}),
            },
            None => Err(DecodeError {}),
        }
    }

    fn encode(&self) -> (r: Vec<u8>) {
        let mut out = Vec::new();
        push_int32_field(&mut out, 1, self.message_type);
        push_string_field(&mut out, 2, &self.uuid);
        push_strings_field(&mut out, 3, &self.topics);
        assert(out@ =~= encode_state(self@));
        out
    }

    fn default_message() -> (r: Self) {
        let r = HeartbeatMessage { message_type: 0, uuid: String::new(), topics: Vec::new() };
        assert(texts(r.topics@) =~= Seq::<Seq<char>>::empty());
        r
    }
}

impl WireMessage for ServerStateMessage {
    open spec fn decode_spec(bytes: Seq<u8>) -> Option<StateView> {
        decode_state(bytes)
    }

    open spec fn encode_spec(v: StateView) -> Seq<u8> {
        encode_state(v)
    }

    open spec fn default_spec() -> StateView {
        StateView { message_type: 0, uuid: Seq::empty(), topics: Seq::empty() }
    }

    fn decode(bytes: &[u8]) -> (r: Result<Self, DecodeError>) {
        match decode_raw(bytes, 3) {
            Some(m) => match (string_field_value(bytes, &m.second), strings_field_value(bytes, &m.third)) {
                (Some(uuid), Some(topics)) => Ok(ServerStateMessage { message_type: m.message_type, uuid, topics }),
                _ => Err(DecodeError {}),
            },
            None => Err(DecodeError {}),
        }
    }

    fn encode(&self) -> (r: Vec<u8>) {
        let mut out = Vec::new();
        push_int32_field(&mut out, 1, self.message_type);
        push_string_field(&mut out, 2, &self.uuid);
        push_strings_field(&mut out, 3, &self.topics);
        assert(out@ =~= encode_state(self@));
        out
    }

    fn default_message() -> (r: Self) {
        let r = ServerStateMessage { message_type: 0, uuid: String::new(), topics: Vec::new() };
        assert(texts(r.topics@) =~= Seq::<Seq<char>>::empty());
        r
    }
}

impl WireMessage for ServerForwardMessage {
    open spec fn decode_spec(bytes: Seq<u8>) -> Option<ForwardView> {
        decode_forward(bytes)
    }

    open spec fn encode_spec(v: ForwardView) -> Seq<u8> {
        encode_forward(v)
    }

    open spec fn default_spec() -> ForwardView {
        ForwardView { message_type: 0, payload: Seq::empty() }
    }

    fn decode(bytes: &[u8]) -> (r: Result<Self, DecodeError>) {
        match decode_raw(bytes, 2) {
            Some(m) => {
                let payload = last_range_bytes(bytes, &m.second);
                Ok(ServerForwardMessage { message_type: m.message_type, payload })
            },
            None => Err(DecodeError {}),
        }
    }

    fn encode(&self) -> (r: Vec<u8>) {
        let mut out = Vec::new();
        push_int32_field(&mut out, 1, self.message_type);
        push_bytes_field(&mut out, 2, self.payload.as_slice());
        assert(out@ =~= encode_forward(self@));
        out
    }

    fn default_message() -> (r: Self) {
        ServerForwardMessage { message_type: 0, payload: Vec::new() }
    }
}

proof fn lemma_i32_widen(v: i32)
    ensures
        (v as u64) as i32 == v,
{
    assert((v as u64) as i32 == v) by (bit_vector);
}

/// The state after a length-delimited field with the given tag.
pub open spec fn raw_after_bytes(known: u64, st: RawFields, tag: nat, b: Seq<u8>) -> RawFields {
    if tag == 2 && known >= 2 {
        RawFields { second: st.second.push(b), ..st }
    } else if tag == 3 && known >= 3 {
        RawFields { third: st.third.push(b), ..st }
    } else {
        st
    }
}

proof fn lemma_decode_type_field(known: u64, st: RawFields, v: i32, rest: Seq<u8>)
    requires
        known >= 1,
    ensures
        decode_fields(raw_step(known), st, int32_field(1, v) + rest) == decode_fields(
            raw_step(known),
            if v == 0 { st } else { RawFields { message_type: v, ..st } },
            rest,
        ),
{
    lemma_decode_int32_field(raw_step(known), st, 1, v, rest);
    lemma_i32_widen(v);
    if v == 0 {
        assert(int32_field(1, v) + rest =~= rest);
    }
}

proof fn lemma_decode_delimited(known: u64, st: RawFields, tag: nat, b: Seq<u8>, rest: Seq<u8>)
    requires
        2 <= tag <= 3,
        b.len() <= u64::MAX,
    ensures
        decode_fields(raw_step(known), st, delimited_field(tag, b) + rest) == decode_fields(
            raw_step(known),
            raw_after_bytes(known, st, tag, b),
            rest,
        ),
{
    lemma_decode_delimited_field(raw_step(known), st, tag, b, rest);
}

proof fn lemma_decode_bytes(known: u64, st: RawFields, tag: nat, b: Seq<u8>, rest: Seq<u8>)
    requires
        2 <= tag <= 3,
        b.len() <= u64::MAX,
    ensures
        decode_fields(raw_step(known), st, bytes_field(tag, b) + rest) == decode_fields(
            raw_step(known),
            if b.len() == 0 { st } else { raw_after_bytes(known, st, tag, b) },
            rest,
        ),
{
    if b.len() == 0 {
        assert(bytes_field(tag, b) + rest =~= rest);
    } else {
        lemma_decode_delimited(known, st, tag, b, rest);
    }
}

proof fn lemma_decode_repeated(known: u64, st: RawFields, bs: Seq<Seq<u8>>, rest: Seq<u8>)
    requires
        forall|i: int| 0 <= i < bs.len() ==> (#[trigger] bs[i]).len() <= u64::MAX,
    ensures
        decode_fields(raw_step(known), st, repeated_field(3, bs) + rest) == decode_fields(
            raw_step(known),
            if known >= 3 { RawFields { third: st.third + bs, ..st } } else { st },
            rest,
        ),
    decreases bs.len(),
{
    if bs.len() == 0 {
        assert(repeated_field(3, bs) + rest =~= rest);
        assert(st.third + bs =~= st.third);
    } else {
        let init = bs.drop_last();
        let tail = delimited_field(3, bs.last()) + rest;
        assert(repeated_field(3, bs) + rest =~= repeated_field(3, init) + tail);
        lemma_decode_repeated(known, st, init, tail);
        let mid = if known >= 3 { RawFields { third: st.third + init, ..st } } else { st };
        lemma_decode_delimited(known, mid, 3, bs.last(), rest);
        assert(st.third + init + seq![bs.last()] =~= st.third + bs);
        assert((st.third + init).push(bs.last()) =~= st.third + bs);
    }
}

proof fn lemma_utf8_field(t: Seq<char>)
    ensures
        valid_utf8(encode_utf8(t)),
        decode_utf8(encode_utf8(t)) == t,
        encode_utf8(t).len() == 0 ==> t == Seq::<char>::empty(),
{
    encode_utf8_valid_utf8(t);
    encode_utf8_decode_utf8(t);
    if encode_utf8(t).len() == 0 {
        assert(encode_utf8(t) =~= Seq::<u8>::empty());
        assert(decode_utf8(Seq::<u8>::empty()) =~= Seq::<char>::empty());
    }
}

/// Decoding the code of an encoded message gives the code.
pub proof fn lemma_abstract_round_trip(v: i32)
    ensures
        decode_abstract(encode_abstract(v)) == Some(v),
{
    lemma_decode_type_field(1, empty_raw(), v, Seq::empty());
    assert(encode_abstract(v) + Seq::<u8>::empty() =~= encode_abstract(v));
}

/// Decoding an encoded topic message gives the message.
pub proof fn lemma_topic_round_trip(v: TopicView)
    requires
        encode_utf8(v.topic).len() <= u64::MAX,
    ensures
        decode_topic(encode_topic(v)) == Some(v),
{
    let e = encode_utf8(v.topic);
    let empty = Seq::<u8>::empty();
    assert(encode_topic(v) =~= int32_field(1, v.message_type) + (bytes_field(2, e) + empty));
    lemma_decode_type_field(2, empty_raw(), v.message_type, bytes_field(2, e) + empty);
    let st1 = if v.message_type == 0 { empty_raw() } else { RawFields { message_type: v.message_type, ..empty_raw() } };
    lemma_decode_bytes(2, st1, 2, e, empty);
    lemma_utf8_field(v.topic);
    let r = decode_raw_spec(2, encode_topic(v)).unwrap();
    assert(last_or_empty(r.second) =~= e);
}

/// Decoding an encoded publish message gives the message.
pub proof fn lemma_publish_round_trip(v: PublishView)
    requires
        encode_utf8(v.topic).len() <= u64::MAX,
        v.payload.len() <= u64::MAX,
    ensures
        decode_publish(encode_publish(v)) == Some(v),
{
    let e = encode_utf8(v.topic);
    let empty = Seq::<u8>::empty();
    assert(encode_publish(v) =~= int32_field(1, v.message_type) + (bytes_field(2, e) + (bytes_field(3, v.payload) + empty)));
    lemma_decode_type_field(3, empty_raw(), v.message_type, bytes_field(2, e) + (bytes_field(3, v.payload) + empty));
    let st1 = if v.message_type == 0 { empty_raw() } else { RawFields { message_type: v.message_type, ..empty_raw() } };
    lemma_decode_bytes(3, st1, 2, e, bytes_field(3, v.payload) + empty);
    let st2 = if e.len() == 0 { st1 } else { raw_after_bytes(3, st1, 2, e) };
    lemma_decode_bytes(3, st2, 3, v.payload, empty);
    lemma_utf8_field(v.topic);
    let r = decode_raw_spec(3, encode_publish(v)).unwrap();
    assert(last_or_empty(r.second) =~= e);
    assert(last_or_empty(r.third) =~= v.payload);
}

/// Decoding an encoded heartbeat or server-state message gives the message.
pub proof fn lemma_state_round_trip(v: StateView)
    requires
        encode_utf8(v.uuid).len() <= u64::MAX,
        forall|i: int| 0 <= i < v.topics.len() ==> encode_utf8(#[trigger] v.topics[i]).len() <= u64::MAX,
    ensures
        decode_state(encode_state(v)) == Some(v),
{
    let e = encode_utf8(v.uuid);
    let ts = encode_all_utf8(v.topics);
    let empty = Seq::<u8>::empty();
    assert(encode_state(v) =~= int32_field(1, v.message_type) + (bytes_field(2, e) + (repeated_field(3, ts) + empty)));
    lemma_decode_type_field(3, empty_raw(), v.message_type, bytes_field(2, e) + (repeated_field(3, ts) + empty));
    let st1 = if v.message_type == 0 { empty_raw() } else { RawFields { message_type: v.message_type, ..empty_raw() } };
    lemma_decode_bytes(3, st1, 2, e, repeated_field(3, ts) + empty);
    let st2 = if e.len() == 0 { st1 } else { raw_after_bytes(3, st1, 2, e) };
    assert forall|i: int| 0 <= i < ts.len() implies (#[trigger] ts[i]).len() <= u64::MAX by {
        assert(ts[i] == encode_utf8(v.topics[i]));
    }
    lemma_decode_repeated(3, st2, ts, empty);
    lemma_utf8_field(v.uuid);
    let r = decode_raw_spec(3, encode_state(v)).unwrap();
    assert(last_or_empty(r.second) =~= e);
    assert(r.third =~= ts);
    assert forall|i: int| 0 <= i < ts.len() implies valid_utf8(#[trigger] ts[i]) by {
        lemma_utf8_field(v.topics[i]);
    }
    assert forall|i: int| 0 <= i < ts.len() implies #[trigger] decode_all_utf8(ts)[i] == v.topics[i] by {
        lemma_utf8_field(v.topics[i]);
    }
    assert(decode_all_utf8(ts) =~= v.topics);
}

/// Decoding an encoded forward message gives the message.
pub proof fn lemma_forward_round_trip(v: ForwardView)
    requires
        v.payload.len() <= u64::MAX,
    ensures
        decode_forward(encode_forward(v)) == Some(v),
{
    let empty = Seq::<u8>::empty();
    assert(encode_forward(v) =~= int32_field(1, v.message_type) + (bytes_field(2, v.payload) + empty));
    lemma_decode_type_field(2, empty_raw(), v.message_type, bytes_field(2, v.payload) + empty);
    let st1 = if v.message_type == 0 { empty_raw() } else { RawFields { message_type: v.message_type, ..empty_raw() } };
    lemma_decode_bytes(2, st1, 2, v.payload, empty);
    let r = decode_raw_spec(2, encode_forward(v)).unwrap();
    assert(last_or_empty(r.second) =~= v.payload);
}

/// The code of an encoded publish message reads back alone.
pub proof fn lemma_publish_code(v: PublishView)
    requires
        encode_utf8(v.topic).len() <= u64::MAX,
        v.payload.len() <= u64::MAX,
    ensures
        decode_abstract(encode_publish(v)) == Some(v.message_type),
{
    let e = encode_utf8(v.topic);
    let empty = Seq::<u8>::empty();
    assert(encode_publish(v) =~= int32_field(1, v.message_type) + (bytes_field(2, e) + (bytes_field(3, v.payload) + empty)));
    lemma_decode_type_field(1, empty_raw(), v.message_type, bytes_field(2, e) + (bytes_field(3, v.payload) + empty));
    let st1 = if v.message_type == 0 { empty_raw() } else { RawFields { message_type: v.message_type, ..empty_raw() } };
    lemma_decode_bytes(1, st1, 2, e, bytes_field(3, v.payload) + empty);
    lemma_decode_bytes(1, st1, 3, v.payload, empty);
}

/// The code of an encoded topic message reads back alone.
pub proof fn lemma_topic_code(v: TopicView)
    requires
        encode_utf8(v.topic).len() <= u64::MAX,
    ensures
        decode_abstract(encode_topic(v)) == Some(v.message_type),
{
    let e = encode_utf8(v.topic);
    let empty = Seq::<u8>::empty();
    assert(encode_topic(v) =~= int32_field(1, v.message_type) + (bytes_field(2, e) + empty));
    lemma_decode_type_field(1, empty_raw(), v.message_type, bytes_field(2, e) + empty);
    let st1 = if v.message_type == 0 { empty_raw() } else { RawFields { message_type: v.message_type, ..empty_raw() } };
    lemma_decode_bytes(1, st1, 2, e, empty);
}

proof fn lemma_known_three_reads_code(st3: RawFields, st1: RawFields, s: Seq<u8>)
    requires
        st3.message_type == st1.message_type,
        decode_fields(raw_step(3), st3, s) is Some,
    ensures
        decode_fields(raw_step(1), st1, s) is Some,
        decode_fields(raw_step(1), st1, s).unwrap().message_type == decode_fields(raw_step(3), st3, s).unwrap().message_type,
    decreases s.len(),
{
    if s.len() > 0 {
        let (f, n) = wire::field_at(s).unwrap();
        let a = (raw_step(3))(st3, f).unwrap();
        let b = (raw_step(1))(st1, f).unwrap();
        lemma_known_three_reads_code(a, b, s.skip(n as int));
    }
}

/// Bytes that hold a publish message hold its code where only the code is
/// read.
pub proof fn lemma_publish_bytes_code(s: Seq<u8>)
    requires
        decode_publish(s) is Some,
    ensures
        decode_abstract(s) == Some(decode_publish(s).unwrap().message_type),
{
    lemma_known_three_reads_code(empty_raw(), empty_raw(), s);
}

} // verus!
