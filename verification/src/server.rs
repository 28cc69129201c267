//! The server: its registries of topics and peers, and what it does with
//! each message it receives. The sending itself is left to the caller: each
//! handler changes the server's state and lists the sends to perform.

pub mod peer;
pub mod peers_map;
pub mod topics_map;

use vstd::prelude::*;
use crate::util::{Address, AddressView};
use crate::util::lists::{texts, distinct, texts_contain};
use crate::message::{
    MessageType, message_type_of, WireMessage, AbstractMessage, PublishMessage, TopicMessage,
    UnsubscribeMessage, HeartbeatMessage, ServerStateMessage, ServerForwardMessage, decode_abstract,
    decode_publish, decode_topic, decode_state, decode_forward, encode_state, encode_forward,
    StateView, ForwardView, PublishView, lemma_forward_round_trip, lemma_publish_bytes_code, lemma_state_round_trip,
};
use self::peer::{Peer, PeerView};
use self::peers_map::{PeersMap, first_where, has_id, peers_view};
use self::topics_map::{
    TopicsMap, EntryView, topics_of, push_spec, remove_from_topic_spec, remove_everywhere_spec,
    update_spec, prune_spec, subscribers_in, subscribed, lemma_push_membership,
    lemma_remove_from_topic_membership, lemma_remove_everywhere_membership, lemma_update_membership,
    no_unused_topics,
};

verus! {

/// How many failed connection attempts in a row a peer is allowed before it
/// is forgotten.
pub const MAX_CONNECTION_ATTEMPTS: u32 = 5;

/// A send that a handler asks for.
#[derive(Debug)]
pub enum Effect {
    /// Send `data` to every current subscriber of `topic`, then take the
    /// subscribers whose send failed off the topic.
    SendToSubscribers { topic: String, data: Vec<u8> },
    /// Send `data`, all at once, to each peer whose clients hold `topic`.
    SendToPeersWithTopic { topic: String, data: Vec<u8> },
    /// Send `data` to each peer in turn.
    SendToEachPeer { data: Vec<u8> },
    /// Send `data`, all at once, to every peer.
    SendToAllPeers { data: Vec<u8> },
}

/// The plain values of a send.
pub enum EffectView {
    SendToSubscribers(Seq<char>, Seq<u8>),
    SendToPeersWithTopic(Seq<char>, Seq<u8>),
    SendToEachPeer(Seq<u8>),
    SendToAllPeers(Seq<u8>),
}

impl View for Effect {
    type V = EffectView;

    open spec fn view(&self) -> EffectView {
        match self {
            Effect::SendToSubscribers { topic, data } => EffectView::SendToSubscribers(topic@, data@),
            Effect::SendToPeersWithTopic { topic, data } => EffectView::SendToPeersWithTopic(topic@, data@),
            Effect::SendToEachPeer { data } => EffectView::SendToEachPeer(data@),
            Effect::SendToAllPeers { data } => EffectView::SendToAllPeers(data@),
        }
    }
}

/// Sends as plain values.
pub open spec fn effects_view(v: Seq<Effect>) -> Seq<EffectView> {
    v.map_values(|e: Effect| e@)
}

/// Why a handler refused a message.
#[derive(Debug)]
pub enum HandleError {
    /// The bytes are not a message of the expected kind.
    Decode,
    /// A heartbeat or server state names a server that is not a known peer.
    UnknownPeer { uuid: String },
}

/// The plain values of a refusal.
pub enum HandleErrorView {
    Decode,
    UnknownPeer(Seq<char>),
}

impl View for HandleError {
    type V = HandleErrorView;

    open spec fn view(&self) -> HandleErrorView {
        match self {
            HandleError::Decode => HandleErrorView::Decode,
            HandleError::UnknownPeer { uuid } => HandleErrorView::UnknownPeer(uuid@),
        }
    }
}

/// What handling a message came to.
#[derive(Debug)]
pub enum Outcome {
    /// The message was handled; these sends follow, in order.
    Done(Vec<Effect>),
    /// The message was refused.
    Failed(HandleError),
    /// A forwarded message carries a code that names no kind of message: the
    /// connection's handling stops there.
    Halted,
}

/// The plain values of an outcome.
pub enum OutcomeView {
    Done(Seq<EffectView>),
    Failed(HandleErrorView),
    Halted,
}

impl View for Outcome {
    type V = OutcomeView;

    open spec fn view(&self) -> OutcomeView {
        match self {
            Outcome::Done(v) => OutcomeView::Done(effects_view(v@)),
            Outcome::Failed(e) => OutcomeView::Failed(e@),
            Outcome::Halted => OutcomeView::Halted,
        }
    }
}

/// A server as plain values: its address, its topics, its peers, the ids of
/// every client that has connected, and its id.
pub struct ServerView {
    pub address: AddressView,
    pub topics: Seq<EntryView>,
    pub peers: Seq<PeerView>,
    pub clients: Seq<Seq<char>>,
    pub uuid: Seq<char>,
}

/// The server's state message: its code, its id and its topics.
pub open spec fn state_bytes(s: ServerView) -> Seq<u8> {
    encode_state(StateView { message_type: 4, uuid: s.uuid, topics: topics_of(s.topics) })
}

/// The server's heartbeat: its code, its id and its topics.
pub open spec fn heartbeat_bytes(s: ServerView) -> Seq<u8> {
    encode_state(StateView { message_type: 2, uuid: s.uuid, topics: topics_of(s.topics) })
}

/// Encoded bytes wrapped in a forward message.
pub open spec fn forward_bytes(b: Seq<u8>) -> Seq<u8> {
    encode_forward(ForwardView { message_type: 5, payload: b })
}

/// The place of the first peer with an id, if any has it.
pub open spec fn peer_position(ps: Seq<PeerView>, id: Seq<char>) -> Option<int> {
    if exists|i: int| first_where(ps, has_id(id), i) {
        Some(choose|i: int| first_where(ps, has_id(id), i))
    } else {
        None
    }
}

/// The peers after the peer at `i` reports `topics`.
pub open spec fn with_peer_topics(ps: Seq<PeerView>, i: int, topics: Seq<Seq<char>>) -> Seq<PeerView> {
    ps.update(i, PeerView { topics: topics.to_set(), ..ps[i] })
}

/// What a publish does: the bytes go to the topic's local subscribers, then,
/// wrapped in a forward message, to the peers whose clients hold the topic.
/// Bytes that are no publish message are ignored.
pub open spec fn publish_spec(bytes: Seq<u8>) -> Seq<EffectView> {
    match decode_publish(bytes) {
        Some(m) => seq![
            EffectView::SendToSubscribers(m.topic, bytes),
            EffectView::SendToPeersWithTopic(m.topic, forward_bytes(bytes)),
        ],
        None => Seq::empty(),
    }
}

/// What a subscription does: the client joins the topic, then every peer in
/// turn gets the server's new state.
pub open spec fn subscribe_spec(s: ServerView, bytes: Seq<u8>, ws: Seq<char>) -> Option<(ServerView, Seq<EffectView>)> {
    match decode_topic(bytes) {
        Some(m) => {
            let s2 = ServerView { topics: push_spec(s.topics, m.topic, ws), ..s };
            Some((s2, seq![EffectView::SendToEachPeer(state_bytes(s2))]))
        },
        None => None,
    }
}

/// What an unsubscription does: the client leaves the topic, then every
/// peer in turn gets the server's new state. Bytes that are no
/// unsubscription are ignored.
pub open spec fn unsubscribe_spec(s: ServerView, bytes: Seq<u8>, ws: Seq<char>) -> (ServerView, Seq<EffectView>) {
    match decode_topic(bytes) {
        Some(m) => {
            let s2 = ServerView { topics: remove_from_topic_spec(s.topics, m.topic, ws), ..s };
            (s2, seq![EffectView::SendToEachPeer(state_bytes(s2))])
        },
        None => (s, Seq::empty()),
    }
}

/// What a heartbeat does: one with an id sets the topics of the peer with
/// that id, which must be known; one without sets the topics of the client
/// that sent it.
pub open spec fn heartbeat_spec(s: ServerView, bytes: Seq<u8>, ws: Seq<char>) -> Result<ServerView, HandleErrorView> {
    match decode_state(bytes) {
        Some(m) => if m.uuid.len() > 0 {
            match peer_position(s.peers, m.uuid) {
                Some(i) => Ok(ServerView { peers: with_peer_topics(s.peers, i, m.topics), ..s }),
                None => Err(HandleErrorView::UnknownPeer(m.uuid)),
            }
        } else {
            Ok(ServerView { topics: update_spec(s.topics, ws, m.topics), ..s })
        },
        None => Err(HandleErrorView::Decode),
    }
}

/// What a server state does: it sets the topics of the peer with its id,
/// which must be known.
pub open spec fn server_state_spec(s: ServerView, bytes: Seq<u8>) -> Result<ServerView, HandleErrorView> {
    match decode_state(bytes) {
        Some(m) => match peer_position(s.peers, m.uuid) {
            Some(i) => Ok(ServerView { peers: with_peer_topics(s.peers, i, m.topics), ..s }),
            None => Err(HandleErrorView::UnknownPeer(m.uuid)),
        },
        None => Err(HandleErrorView::Decode),
    }
}

/// A forward message whose inner code names no kind of message.
pub open spec fn forward_halts(bytes: Seq<u8>) -> bool {
    match decode_forward(bytes) {
        Some(f) => match decode_abstract(f.payload) {
            Some(c) => message_type_of(c) is None,
            None => false,
        },
        None => false,
    }
}

/// What a forward message does: a forwarded publish goes to the topic's
/// local subscribers, and to no peer; other forwarded kinds are ignored.
pub open spec fn forward_spec(bytes: Seq<u8>) -> Result<Seq<EffectView>, HandleErrorView> {
    match decode_forward(bytes) {
        Some(f) => match decode_abstract(f.payload) {
            Some(c) => if message_type_of(c) == Some(MessageType::Publish) {
                match decode_publish(f.payload) {
                    Some(p) => Ok(seq![EffectView::SendToSubscribers(p.topic, f.payload)]),
                    None => Err(HandleErrorView::Decode),
                }
            } else {
                Ok(Seq::empty())
            },
            None => Err(HandleErrorView::Decode),
        },
        None => Err(HandleErrorView::Decode),
    }
}

/// What handling a message of a kind does to the server, and its outcome.
pub open spec fn handle_spec(s: ServerView, t: MessageType, bytes: Seq<u8>, ws: Seq<char>) -> (ServerView, OutcomeView) {
    match t {
        MessageType::Publish => (s, OutcomeView::Done(publish_spec(bytes))),
        MessageType::Subscribe => match subscribe_spec(s, bytes, ws) {
            Some((s2, e)) => (s2, OutcomeView::Done(e)),
            None => (s, OutcomeView::Failed(HandleErrorView::Decode)),
        },
        MessageType::Heartbeat => match heartbeat_spec(s, bytes, ws) {
            Ok(s2) => (s2, OutcomeView::Done(Seq::empty())),
            Err(e) => (s, OutcomeView::Failed(e)),
        },
        MessageType::Unsubscribe => {
            let (s2, e) = unsubscribe_spec(s, bytes, ws);
            (s2, OutcomeView::Done(e))
        },
        MessageType::ServerState => match server_state_spec(s, bytes) {
            Ok(s2) => (s2, OutcomeView::Done(Seq::empty())),
            Err(e) => (s, OutcomeView::Failed(e)),
        },
        MessageType::ServerForward => if forward_halts(bytes) {
            (s, OutcomeView::Halted)
        } else {
            match forward_spec(bytes) {
                Ok(e) => (s, OutcomeView::Done(e)),
                Err(e) => (s, OutcomeView::Failed(e)),
            }
        },
    }
}

/// A lowercase hexadecimal digit.
pub open spec fn lower_hex(c: char) -> bool {
    ('0' <= c && c <= '9') || ('a' <= c && c <= 'f')
}

/// The hyphenated text of a random (version 4, RFC 4122 variant) UUID:
/// 36 characters, hyphens at 8, 13, 18 and 23, lowercase hexadecimal
/// digits elsewhere, the version digit `4` at 14, and one of `8`, `9`, `a`,
/// `b` at 19.
pub open spec fn random_uuid_text(s: Seq<char>) -> bool {
    &&& s.len() == 36
    &&& s[8] == '-' && s[13] == '-' && s[18] == '-' && s[23] == '-'
    &&& forall|i: int| 0 <= i < 36 && i != 8 && i != 13 && i != 18 && i != 23 ==> lower_hex(#[trigger] s[i])
    &&& s[14] == '4'
    &&& (s[19] == '8' || s[19] == '9' || s[19] == 'a' || s[19] == 'b')
}

/// Makes a random id with the `uuid` crate: a version 4 UUID in its
/// hyphenated form. Trusted: states the form that `Uuid::new_v4` (which
/// sets the version and variant bits) and the lowercase hyphenated `Display`
/// give; the other digits are random.
#[verifier::external_body]
fn new_uuid() -> (r: String)
    ensures
        random_uuid_text(r@),
{
    uuid::Uuid::new_v4().to_string()
}

/// A publish-subscribe server.
pub struct Server {
    address: Address,
    topics_map: TopicsMap,
    peers_map: PeersMap,
    all_websockets: Vec<String>,
    uuid: String,
}

impl View for Server {
    type V = ServerView;

    closed spec fn view(&self) -> ServerView {
        ServerView {
            address: self.address@,
            topics: self.topics_map@,
            peers: self.peers_map@,
            clients: texts(self.all_websockets@),
            uuid: self.uuid@,
        }
    }
}

proof fn lemma_first_where_unique(ps: Seq<PeerView>, id: Seq<char>, i: int, k: int)
    requires
        first_where(ps, has_id(id), i),
        first_where(ps, has_id(id), k),
    ensures
        i == k,
{
    if i < k {
        assert(!has_id(id)(ps[i]));
    } else if k < i {
        assert(!has_id(id)(ps[k]));
    }
}

impl Server {
    /// The registries are well formed and no client id occurs twice.
    pub closed spec fn wf(&self) -> bool {
        &&& self.topics_map.wf()
        &&& self.peers_map.wf()
        &&& distinct(texts(self.all_websockets@))
    }

    /// A server at `self_addr` that knows a peer at each of `peer_addrs`,
    /// with a fresh random id.
    pub fn new(peer_addrs: Vec<Address>, self_addr: Address) -> (r: Self)
        ensures
            r.wf(),
            r@.address == self_addr@,
            r@.topics == Seq::<EntryView>::empty(),
            r@.clients == Seq::<Seq<char>>::empty(),
            random_uuid_text(r@.uuid),
            r@.peers.len() == peer_addrs@.len(),
            forall|i: int| 0 <= i < peer_addrs@.len() ==> (#[trigger] r@.peers[i]) == (PeerView {
                topics: Set::empty(),
                connected: false,
                server_id: None,
                address: peer_addrs@[i]@,
                connection_attempts: 0,
            }),
    {
        let mut peers: Vec<Peer> = Vec::new();
        let mut i: usize = 0;
        while i < peer_addrs.len()
            invariant
                i <= peer_addrs@.len(),
                peers@.len() == i,
                forall|j: int| 0 <= j < i ==> (#[trigger] peers@[j]).wf(),
                forall|j: int| 0 <= j < i ==> (#[trigger] peers@[j])@ == (PeerView {
                    topics: Set::empty(),
                    connected: false,
                    server_id: None,
                    address: peer_addrs@[j]@,
                    connection_attempts: 0,
                }),
            decreases peer_addrs@.len() - i,
        {
            peers.push(Peer::new(peer_addrs[i].clone()));
            i = i + 1;
        }
        let r = Server {
            address: self_addr,
            topics_map: TopicsMap::new(),
            peers_map: PeersMap::new_with_peers(peers),
            all_websockets: Vec::new(),
            uuid: new_uuid(),
        };
        proof {
            assert(texts(r.all_websockets@) =~= Seq::<Seq<char>>::empty());
        }
        r
    }

    pub fn address(&self) -> (r: &Address)
        ensures
            r@ == self@.address,
    {
        &self.address
    }

    pub fn uuid(&self) -> (r: &String)
        ensures
            r@ == self@.uuid,
    {
        &self.uuid
    }

    pub fn topics_map(&self) -> (r: &TopicsMap)
        ensures
            r@ == self@.topics,
            self.wf() ==> r.wf(),
    {
        &self.topics_map
    }

    pub fn peers_map(&self) -> (r: &PeersMap)
        ensures
            r@ == self@.peers,
            self.wf() ==> r.wf(),
    {
        &self.peers_map
    }

    /// The ids of every client that has connected, for the heartbeat.
    pub fn all_websockets(&self) -> (r: &Vec<String>)
        ensures
            texts(r@) == self@.clients,
    {
        &self.all_websockets
    }

    /// The server's state message.
    pub fn state_message(&self) -> (r: Vec<u8>)
        ensures
            r@ == state_bytes(self@),
    {
        self.topics_map.to_proto(self.uuid.clone())
    }

    /// The server's heartbeat.
    pub fn heartbeat_message(&self) -> (r: Vec<u8>)
        ensures
            r@ == heartbeat_bytes(self@),
    {
        let m = HeartbeatMessage { message_type: 2, uuid: self.uuid.clone(), topics: self.topics_map.get_all_topics() };
        m.encode()
    }

    /// A client has connected: it is counted among the clients, and gets the
    /// server's state message, which this returns.
    pub fn handle_client_connected(&mut self, ws: String) -> (r: Vec<u8>)
        requires
            old(self).wf(),
        ensures
            final(self).wf(),
            r@ == state_bytes(old(self)@),
            final(self)@ == (ServerView {
                clients: if old(self)@.clients.contains(ws@) { old(self)@.clients } else { old(self)@.clients.push(ws@) },
                ..old(self)@
            }),
    {
        let r = self.state_message();
        if !texts_contain(&self.all_websockets, &ws) {
            let ghost before = texts(self.all_websockets@);
            self.all_websockets.push(ws);
            proof {
                assert(texts(self.all_websockets@) =~= before.push(ws@));
                let t = texts(self.all_websockets@);
                assert forall|a: int, b: int| 0 <= a < t.len() && 0 <= b < t.len() && a != b implies t[a] != t[b] by {
                    if a == before.len() {
                        assert(before[b] != ws@);
                    } else if b == before.len() {
                        assert(before[a] != ws@);
                    }
                }
            }
        }
        r
    }

    /// A client has gone: it leaves every topic, then every peer, all at
    /// once, gets the server's new state.
    pub fn handle_client_disconnected(&mut self, ws: &String) -> (r: Vec<Effect>)
        requires
            old(self).wf(),
        ensures
            final(self).wf(),
            final(self)@ == (ServerView { topics: remove_everywhere_spec(old(self)@.topics, ws@), ..old(self)@ }),
            effects_view(r@) == seq![EffectView::SendToAllPeers(state_bytes(final(self)@))],
    {
        self.topics_map.remove_subscriber(ws);
        let data = self.state_message();
        let mut r: Vec<Effect> = Vec::new();
        r.push(Effect::SendToAllPeers { data });
        assert(effects_view(r@) =~= seq![EffectView::SendToAllPeers(state_bytes(self@))]);
        r
    }

    /// Learns of a peer at an address, unless one with that address is
    /// known; says whether it did.
    pub fn add_peer(&mut self, peer_addr: Address) -> (r: bool)
        requires
            old(self).wf(),
        ensures
            final(self).wf(),
            r == !self::peers_map::has_address(old(self)@.peers, peer_addr@),
            final(self)@ == (ServerView {
                peers: if r {
                    old(self)@.peers.push(PeerView {
                        topics: Set::empty(),
                        connected: false,
                        server_id: None,
                        address: peer_addr@,
                        connection_attempts: 0,
                    })
                } else {
                    old(self)@.peers
                },
                ..old(self)@
            }),
    {
        self.peers_map.add_peer(Peer::new(peer_addr))
    }

    /// After a round of connection attempts, forgets the peers that failed
    /// too often, when any attempt failed.
    pub fn after_connection_round(&mut self, some_failed: bool)
        requires
            old(self).wf(),
        ensures
            final(self).wf(),
            final(self)@ == (ServerView {
                peers: if some_failed {
                    old(self)@.peers.filter(self::peers_map::attempts_within(MAX_CONNECTION_ATTEMPTS))
                } else {
                    old(self)@.peers
                },
                ..old(self)@
            }),
    {
        if some_failed {
            self.peers_map.check_connection_attempts_and_remove(MAX_CONNECTION_ATTEMPTS);
        }
    }

    /// Counts a connection attempt to the peer at a place.
    pub fn record_connection_attempt_at(&mut self, i: usize)
        requires
            old(self).wf(),
            i < old(self)@.peers.len(),
            !old(self)@.peers[i as int].connected,
            old(self)@.peers[i as int].connection_attempts < u32::MAX,
        ensures
            final(self).wf(),
            final(self)@ == (ServerView {
                peers: old(self)@.peers.update(i as int, PeerView {
                    connection_attempts: (old(self)@.peers[i as int].connection_attempts + 1) as u32,
                    ..old(self)@.peers[i as int]
                }),
                ..old(self)@
            }),
    {
        self.peers_map.record_connection_attempt_at(i);
    }

    /// The peer at a place is connected and has sent its state.
    pub fn complete_connection_at(&mut self, i: usize, state: &ServerStateMessage)
        requires
            old(self).wf(),
            i < old(self)@.peers.len(),
        ensures
            final(self).wf(),
            final(self)@ == (ServerView {
                peers: old(self)@.peers.update(i as int, PeerView {
                    topics: old(self)@.peers[i as int].topics.union(state@.topics.to_set()),
                    connected: true,
                    server_id: Some(state@.uuid),
                    address: old(self)@.peers[i as int].address,
                    connection_attempts: 0,
                }),
                ..old(self)@
            }),
    {
        self.peers_map.complete_connection_at(i, state);
    }

    /// The connection to the peer at a place is closed.
    pub fn close_websock_at(&mut self, i: usize)
        requires
            old(self).wf(),
            i < old(self)@.peers.len(),
            old(self)@.peers[i as int].connected,
        ensures
            final(self).wf(),
            final(self)@ == (ServerView {
                peers: old(self)@.peers.update(i as int, PeerView { connected: false, ..old(self)@.peers[i as int] }),
                ..old(self)@
            }),
    {
        self.peers_map.close_websock_at(i);
    }

    /// After a send to a topic's subscribers, takes those whose send failed
    /// off the topic.
    pub fn prune_failed(&mut self, topic: &str, failed: &Vec<String>)
        requires
            old(self).wf(),
        ensures
            final(self).wf(),
            final(self)@ == (ServerView { topics: prune_spec(old(self)@.topics, topic@, texts(failed@)), ..old(self)@ }),
    {
        self.topics_map.prune_failed(topic, failed);
    }

    fn peer_index(&self, id: &String) -> (r: Option<usize>)
        ensures
            match r {
                Some(i) => peer_position(self@.peers, id@) == Some(i as int) && i < self@.peers.len(),
                None => peer_position(self@.peers, id@) is None,
            },
    {
        let r = self.peers_map.position_by_id(id.as_str());
        proof {
            match r {
                Some(i) => {
                    assert(exists|k: int| first_where(self@.peers, has_id(id@), k));
                    let k = choose|k: int| first_where(self@.peers, has_id(id@), k);
                    lemma_first_where_unique(self@.peers, id@, i as int, k);
                },
                None => {
                    if exists|k: int| first_where(self@.peers, has_id(id@), k) {
                        let k = choose|k: int| first_where(self@.peers, has_id(id@), k);
                        assert(has_id(id@)(self@.peers[k]));
                    }
                },
            }
        }
        r
    }

    /// Handles a publish.
    pub fn handle_publish(&self, bytes: &[u8]) -> (r: Vec<Effect>)
        ensures
            effects_view(r@) == publish_spec(bytes@),
    {
        let mut r: Vec<Effect> = Vec::new();
        match PublishMessage::decode(bytes) {
            Ok(m) => {
                let fwd = ServerForwardMessage { message_type: 5, payload: vstd::slice::slice_to_vec(bytes) };
                let data = fwd.encode();
                r.push(Effect::SendToSubscribers { topic: m.topic.clone(), data: vstd::slice::slice_to_vec(bytes) });
                r.push(Effect::SendToPeersWithTopic { topic: m.topic, data });
                assert(effects_view(r@) =~= publish_spec(bytes@));
            },
            Err(_) => {
                assert(effects_view(r@) =~= publish_spec(bytes@));
            },
        }
        r
    }

    /// Handles a subscription from the client `ws`.
    pub fn handle_subscribe(&mut self, bytes: &[u8], ws: &String) -> (r: Result<Vec<Effect>, HandleError>)
        requires
            old(self).wf(),
        ensures
            final(self).wf(),
            match subscribe_spec(old(self)@, bytes@, ws@) {
                Some((s2, e)) => final(self)@ == s2 && (r matches Ok(v) && effects_view(v@) == e),
                None => final(self)@ == old(self)@ && (r matches Err(err) && err@ == HandleErrorView::Decode),
            },
    {
        match TopicMessage::decode(bytes) {
            Ok(m) => {
                self.topics_map.push(m.topic, ws.clone());
                let data = self.state_message();
                let mut r: Vec<Effect> = Vec::new();
                r.push(Effect::SendToEachPeer { data });
                assert(effects_view(r@) =~= seq![EffectView::SendToEachPeer(state_bytes(self@))]);
                Ok(r)
            },
            Err(_) => Err(HandleError::Decode),
        }
    }

    /// Handles an unsubscription from the client `ws`.
    pub fn handle_unsubscribe(&mut self, bytes: &[u8], ws: &String) -> (r: Vec<Effect>)
        requires
            old(self).wf(),
        ensures
            final(self).wf(),
            (final(self)@, effects_view(r@)) == unsubscribe_spec(old(self)@, bytes@, ws@),
    {
        let mut r: Vec<Effect> = Vec::new();
        match UnsubscribeMessage::decode(bytes) {
            Ok(m) => {
                self.topics_map.remove_subscriber_from_topic(m.topic.as_str(), ws);
                let data = self.state_message();
                r.push(Effect::SendToEachPeer { data });
                assert(effects_view(r@) =~= seq![EffectView::SendToEachPeer(state_bytes(self@))]);
            },
            Err(_) => {
                assert(effects_view(r@) =~= Seq::<EffectView>::empty());
            },
        }
        r
    }

    /// Handles a heartbeat from the client or peer `ws`.
    pub fn handle_heartbeat(&mut self, bytes: &[u8], ws: &String) -> (r: Result<(), HandleError>)
        requires
            old(self).wf(),
        ensures
            final(self).wf(),
            match heartbeat_spec(old(self)@, bytes@, ws@) {
                Ok(s2) => final(self)@ == s2 && r is Ok,
                Err(e) => final(self)@ == old(self)@ && (r matches Err(err) && err@ == e),
            },
    {
        match HeartbeatMessage::decode(bytes) {
            Ok(m) => {
                if !m.uuid.as_str().is_empty() {
                    match self.peer_index(&m.uuid) {
                        Some(i) => {
                            self.peers_map.update_topics_at(i, m.topics);
                            Ok(())
                        },
                        None => Err(HandleError::UnknownPeer { uuid: m.uuid }),
                    }
                } else {
                    self.topics_map.update_topics_for_subscriber(ws, m.topics);
                    Ok(())
                }
            },
            Err(_) => Err(HandleError::Decode),
        }
    }

    /// Handles a peer's state.
    pub fn handle_server_state(&mut self, bytes: &[u8]) -> (r: Result<(), HandleError>)
        requires
            old(self).wf(),
        ensures
            final(self).wf(),
            match server_state_spec(old(self)@, bytes@) {
                Ok(s2) => final(self)@ == s2 && r is Ok,
                Err(e) => final(self)@ == old(self)@ && (r matches Err(err) && err@ == e),
            },
    {
        match ServerStateMessage::decode(bytes) {
            Ok(m) => match self.peer_index(&m.uuid) {
                Some(i) => {
                    self.peers_map.update_topics_at(i, m.topics);
                    Ok(())
                },
                None => Err(HandleError::UnknownPeer { uuid: m.uuid }),
            },
            Err(_) => Err(HandleError::Decode),
        }
    }

    /// Handles a message that a peer forwards.
    pub fn handle_server_forward(&self, bytes: &[u8]) -> (r: Result<Vec<Effect>, HandleError>)
        requires
            !forward_halts(bytes@),
        ensures
            match forward_spec(bytes@) {
                Ok(e) => r matches Ok(v) && effects_view(v@) == e,
                Err(e) => r matches Err(err) && err@ == e,
            },
    {
        let f = match ServerForwardMessage::decode(bytes) {
            Ok(f) => f,
            Err(_) => return Err(HandleError::Decode),
        };
        let inner = f.payload.as_slice();
        let a = match AbstractMessage::decode(inner) {
            Ok(a) => a,
            Err(_) => return Err(HandleError::Decode),
        };
        match MessageType::try_from(a.message_type) {
            Some(MessageType::Publish) => match PublishMessage::decode(inner) {
                Ok(p) => {
                    let mut r: Vec<Effect> = Vec::new();
                    r.push(Effect::SendToSubscribers { topic: p.topic, data: f.payload.clone() });
                    assert(effects_view(r@) =~= seq![EffectView::SendToSubscribers(p@.topic, f@.payload)]);
                    Ok(r)
                },
                Err(_) => Err(HandleError::Decode),
            },
            _ => {
                let r: Vec<Effect> = Vec::new();
                assert(effects_view(r@) =~= Seq::<EffectView>::empty());
                Ok(r)
            },
        }
    }

    /// Whether a forward message carries a code that names no kind of
    /// message.
    pub fn forward_would_halt(bytes: &[u8]) -> (r: bool)
        ensures
            r == forward_halts(bytes@),
    {
        match ServerForwardMessage::decode(bytes) {
            Ok(f) => match AbstractMessage::decode(f.payload.as_slice()) {
                Ok(a) => MessageType::try_from(a.message_type).is_none(),
                Err(_) => false,
            },
            Err(_) => false,
        }
    }

    /// Handles a message of a known kind from the client or peer `ws`.
    pub fn handle_message(&mut self, message_type: MessageType, bytes: &[u8], ws: &String) -> (r: Outcome)
        requires
            old(self).wf(),
        ensures
            final(self).wf(),
            (final(self)@, r@) == handle_spec(old(self)@, message_type, bytes@, ws@),
    {
        match message_type {
            MessageType::Publish => Outcome::Done(self.handle_publish(bytes)),
            MessageType::Subscribe => match self.handle_subscribe(bytes, ws) {
                Ok(e) => Outcome::Done(e),
                Err(e) => Outcome::Failed(e),
            },
            MessageType::Heartbeat => match self.handle_heartbeat(bytes, ws) {
                Ok(()) => {
                    let v: Vec<Effect> = Vec::new();
                    assert(effects_view(v@) =~= Seq::<EffectView>::empty());
                    Outcome::Done(v)
                },
                Err(e) => Outcome::Failed(e),
            },
            MessageType::Unsubscribe => Outcome::Done(self.handle_unsubscribe(bytes, ws)),
            MessageType::ServerState => match self.handle_server_state(bytes) {
                Ok(()) => {
                    let v: Vec<Effect> = Vec::new();
                    assert(effects_view(v@) =~= Seq::<EffectView>::empty());
                    Outcome::Done(v)
                },
                Err(e) => Outcome::Failed(e),
            },
            MessageType::ServerForward => {
                if Self::forward_would_halt(bytes) {
                    Outcome::Halted
                } else {
                    match self.handle_server_forward(bytes) {
                        Ok(e) => Outcome::Done(e),
                        Err(e) => Outcome::Failed(e),
                    }
                }
            },
        }
    }
}

/// A forwarded message never makes a server send to its peers: whatever
/// arrives from a peer is delivered locally at most, so forwarding does not
/// loop.
pub proof fn lemma_forward_stays_local(bytes: Seq<u8>)
    ensures
        forward_spec(bytes) matches Ok(effs) ==> forall|i: int| 0 <= i < effs.len() ==> (#[trigger] effs[i]) is SendToSubscribers,
{
}

/// A publish is delivered to the topic's local subscribers as it came, and
/// handed to the peers that hold the topic as a forward message; a peer
/// that receives that forward message delivers the very same bytes to its
/// own subscribers of the topic, and hands them on to no one.
pub proof fn lemma_publish_reaches_peers_once(bytes: Seq<u8>)
    requires
        decode_publish(bytes) matches Some(p) && p.message_type == 0,
        bytes.len() <= u64::MAX,
    ensures
        ({
            let p = decode_publish(bytes).unwrap();
            &&& publish_spec(bytes) == seq![
                EffectView::SendToSubscribers(p.topic, bytes),
                EffectView::SendToPeersWithTopic(p.topic, forward_bytes(bytes)),
            ]
            &&& !forward_halts(forward_bytes(bytes))
            &&& forward_spec(forward_bytes(bytes)) == Ok::<Seq<EffectView>, HandleErrorView>(seq![EffectView::SendToSubscribers(p.topic, bytes)])
        }),
{
    lemma_forward_round_trip(ForwardView { message_type: 5, payload: bytes });
    lemma_publish_bytes_code(bytes);
}

/// After a subscription to a topic, the client is among the topic's
/// subscribers, and no other subscription changes.
pub proof fn lemma_subscribe_joins(s: ServerView, bytes: Seq<u8>, ws: Seq<char>, t2: Seq<char>, w2: Seq<char>)
    requires
        decode_topic(bytes) is Some,
    ensures
        ({
            let t = decode_topic(bytes).unwrap().topic;
            let s2 = subscribe_spec(s, bytes, ws).unwrap().0;
            subscribed(s2.topics, t2, w2) <==> subscribed(s.topics, t2, w2) || (t2 == t && w2 == ws)
        }),
{
    lemma_push_membership(s.topics, decode_topic(bytes).unwrap().topic, ws, t2, w2);
}

/// After an unsubscription from a topic, the client is no longer among the
/// topic's subscribers, and no other subscription changes.
pub proof fn lemma_unsubscribe_leaves(s: ServerView, bytes: Seq<u8>, ws: Seq<char>, t2: Seq<char>, w2: Seq<char>)
    requires
        decode_topic(bytes) is Some,
    ensures
        ({
            let t = decode_topic(bytes).unwrap().topic;
            let s2 = unsubscribe_spec(s, bytes, ws).0;
            subscribed(s2.topics, t2, w2) <==> subscribed(s.topics, t2, w2) && !(t2 == t && w2 == ws)
        }),
{
    lemma_remove_from_topic_membership(s.topics, decode_topic(bytes).unwrap().topic, ws, t2, w2);
}

/// A client that has gone holds no topic any more; every other client holds
/// what it held.
pub proof fn lemma_disconnect_forgets(s: ServerView, ws: Seq<char>, t2: Seq<char>, w2: Seq<char>)
    ensures
        subscribed(remove_everywhere_spec(s.topics, ws), t2, w2) <==> subscribed(s.topics, t2, w2) && w2 != ws,
{
    lemma_remove_everywhere_membership(s.topics, ws, t2, w2);
}

/// The texts of a state message fit the length fields of the wire format.
pub open spec fn state_fits(v: StateView) -> bool {
    &&& vstd::utf8::encode_utf8(v.uuid).len() <= u64::MAX
    &&& forall|i: int| 0 <= i < v.topics.len() ==> vstd::utf8::encode_utf8(#[trigger] v.topics[i]).len() <= u64::MAX
}

/// `w` subscribes to `t` in `es` exactly when `t` is among the listed topics
/// and some client holds it; in a map without unused topics, a topic is
/// listed exactly when some client holds it.
proof fn lemma_listed_iff_held(es: Seq<EntryView>, t: Seq<char>)
    requires
        no_unused_topics(es),
    ensures
        topics_of(es).contains(t) <==> exists|w: Seq<char>| #[trigger] subscribed(es, t, w),
{
    if topics_of(es).contains(t) {
        let k = choose|k: int| 0 <= k < topics_of(es).len() && topics_of(es)[k] == t;
        assert(es[k].1.len() > 0);
        let w = es[k].1[0];
        assert(es.contains(es[k]));
        assert(es[k].1.contains(w));
        assert(subscribed(es, t, w));
    }
    if exists|w: Seq<char>| #[trigger] subscribed(es, t, w) {
        let w = choose|w: Seq<char>| #[trigger] subscribed(es, t, w);
        lemma_subscribed_listed(es, t, w);
    }
}

/// A topic that a client holds is among the listed topics.
proof fn lemma_subscribed_listed(es: Seq<EntryView>, t: Seq<char>, w: Seq<char>)
    requires
        subscribed(es, t, w),
    ensures
        topics_of(es).contains(t),
{
    let e = choose|e: EntryView| es.contains(e) && e.0 == t && e.1.contains(w);
    let k = choose|k: int| 0 <= k < es.len() && es[k] == e;
    assert(topics_of(es)[k] == t);
}

/// After a subscription, every peer is sent the server's new state: a
/// state message with the server's id that lists every topic of the new
/// topic map, in order, the subscribed topic among them; decoding it gives
/// exactly that.
pub proof fn lemma_subscribe_announces_new_state(s: ServerView, bytes: Seq<u8>, ws: Seq<char>)
    requires
        decode_topic(bytes) is Some,
    ensures
        ({
            let t = decode_topic(bytes).unwrap().topic;
            let (s2, effs) = subscribe_spec(s, bytes, ws).unwrap();
            let v = StateView { message_type: 4, uuid: s.uuid, topics: topics_of(s2.topics) };
            &&& effs.len() == 1
            &&& effs[0] == EffectView::SendToEachPeer(encode_state(v))
            &&& topics_of(s2.topics).contains(t)
            &&& state_fits(v) ==> decode_state(encode_state(v)) == Some(v)
        }),
{
    let t = decode_topic(bytes).unwrap().topic;
    let s2 = subscribe_spec(s, bytes, ws).unwrap().0;
    lemma_push_membership(s.topics, t, ws, t, ws);
    lemma_subscribed_listed(s2.topics, t, ws);
    let v = StateView { message_type: 4, uuid: s.uuid, topics: topics_of(s2.topics) };
    if state_fits(v) {
        lemma_state_round_trip(v);
    }
}

/// After an unsubscription, every peer is sent the server's state after the
/// removal: a state message with the server's id that lists exactly the
/// topics of the new topic map, in order, which no longer has the client on
/// the topic; decoding it gives exactly that.
pub proof fn lemma_unsubscribe_announces_new_state(s: ServerView, bytes: Seq<u8>, ws: Seq<char>)
    requires
        decode_topic(bytes) is Some,
    ensures
        ({
            let t = decode_topic(bytes).unwrap().topic;
            let (s2, effs) = unsubscribe_spec(s, bytes, ws);
            let v = StateView { message_type: 4, uuid: s.uuid, topics: topics_of(s2.topics) };
            &&& effs.len() == 1
            &&& effs[0] == EffectView::SendToEachPeer(encode_state(v))
            &&& !subscribed(s2.topics, t, ws)
            &&& state_fits(v) ==> decode_state(encode_state(v)) == Some(v)
        }),
{
    let t = decode_topic(bytes).unwrap().topic;
    lemma_remove_from_topic_membership(s.topics, t, ws, t, ws);
    let s2 = unsubscribe_spec(s, bytes, ws).0;
    let v = StateView { message_type: 4, uuid: s.uuid, topics: topics_of(s2.topics) };
    if state_fits(v) {
        lemma_state_round_trip(v);
    }
}

/// A heartbeat without an id comes from a client and sets its topics: after
/// it, the client holds exactly the topics the heartbeat names (none, for
/// an empty list), every other client holds what it held, and the peers
/// are untouched.
pub proof fn lemma_client_heartbeat_sets_topics(s: ServerView, bytes: Seq<u8>, ws: Seq<char>, t2: Seq<char>, w2: Seq<char>)
    requires
        decode_state(bytes) matches Some(m) && m.uuid.len() == 0,
    ensures
        ({
            let m = decode_state(bytes).unwrap();
            heartbeat_spec(s, bytes, ws) matches Ok(s2) && s2.peers == s.peers && s2.uuid == s.uuid
                && (subscribed(s2.topics, t2, w2) <==> if w2 == ws { m.topics.contains(t2) } else { subscribed(s.topics, t2, w2) })
        }),
{
    let m = decode_state(bytes).unwrap();
    lemma_update_membership(s.topics, ws, m.topics, t2, w2);
}

/// The peers after the peer at `i` reports `topics`: that peer's topics are
/// exactly those (none, for an empty list), and nothing else of any peer
/// changes.
pub open spec fn peer_topics_replaced(before: Seq<PeerView>, after: Seq<PeerView>, i: int, topics: Seq<Seq<char>>) -> bool {
    &&& after.len() == before.len()
    &&& forall|t: Seq<char>| #[trigger] after[i].topics.contains(t) <==> topics.contains(t)
    &&& after[i].connected == before[i].connected
    &&& after[i].server_id == before[i].server_id
    &&& after[i].address == before[i].address
    &&& after[i].connection_attempts == before[i].connection_attempts
    &&& forall|j: int| 0 <= j < before.len() && j != i ==> #[trigger] after[j] == before[j]
}

/// A server state from a known peer replaces that peer's topics with
/// exactly the ones it lists, the empty list included; no other peer and
/// no local subscription changes.
pub proof fn lemma_server_state_sets_peer_topics(s: ServerView, bytes: Seq<u8>)
    requires
        decode_state(bytes) matches Some(m) && peer_position(s.peers, m.uuid) is Some,
    ensures
        ({
            let m = decode_state(bytes).unwrap();
            let i = peer_position(s.peers, m.uuid).unwrap();
            server_state_spec(s, bytes) matches Ok(s2) && s2.topics == s.topics
                && peer_topics_replaced(s.peers, s2.peers, i, m.topics)
        }),
{
    let m = decode_state(bytes).unwrap();
    let i = peer_position(s.peers, m.uuid).unwrap();
    let k = choose|k: int| first_where(s.peers, has_id(m.uuid), k);
    assert(0 <= i < s.peers.len());
    let s2 = server_state_spec(s, bytes)->Ok_0;
    assert forall|t: Seq<char>| #[trigger] s2.peers[i].topics.contains(t) <==> m.topics.contains(t) by {
        assert(s2.peers[i].topics == m.topics.to_set());
    }
}

/// A heartbeat with an id comes from a known peer and replaces that peer's
/// topics with exactly the ones it lists, the empty list included; no other
/// peer and no local subscription changes.
pub proof fn lemma_peer_heartbeat_sets_peer_topics(s: ServerView, bytes: Seq<u8>, ws: Seq<char>)
    requires
        decode_state(bytes) matches Some(m) && m.uuid.len() > 0 && peer_position(s.peers, m.uuid) is Some,
    ensures
        ({
            let m = decode_state(bytes).unwrap();
            let i = peer_position(s.peers, m.uuid).unwrap();
            heartbeat_spec(s, bytes, ws) matches Ok(s2) && s2.topics == s.topics
                && peer_topics_replaced(s.peers, s2.peers, i, m.topics)
        }),
{
    let m = decode_state(bytes).unwrap();
    let i = peer_position(s.peers, m.uuid).unwrap();
    let k = choose|k: int| first_where(s.peers, has_id(m.uuid), k);
    assert(0 <= i < s.peers.len());
    let s2 = heartbeat_spec(s, bytes, ws)->Ok_0;
    assert forall|t: Seq<char>| #[trigger] s2.peers[i].topics.contains(t) <==> m.topics.contains(t) by {
        assert(s2.peers[i].topics == m.topics.to_set());
    }
}

/// The periodic heartbeat decodes to a heartbeat with the server's id that
/// lists the topics of its topic map, in order; where no topic is unused,
/// it names a topic exactly when some client of the server holds it.
pub proof fn lemma_heartbeat_lists_held_topics(s: ServerView, t: Seq<char>)
    requires
        state_fits(StateView { message_type: 2, uuid: s.uuid, topics: topics_of(s.topics) }),
    ensures
        decode_state(heartbeat_bytes(s)) == Some(StateView { message_type: 2, uuid: s.uuid, topics: topics_of(s.topics) }),
        no_unused_topics(s.topics) ==> (decode_state(heartbeat_bytes(s)).unwrap().topics.contains(t)
            <==> exists|w: Seq<char>| #[trigger] subscribed(s.topics, t, w)),
{
    lemma_state_round_trip(StateView { message_type: 2, uuid: s.uuid, topics: topics_of(s.topics) });
    if no_unused_topics(s.topics) {
        lemma_listed_iff_held(s.topics, t);
    }
}

} // verus!
