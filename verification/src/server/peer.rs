//! Another server that this one relays messages to.

use vstd::prelude::*;
use crate::util::{Address, AddressView};
use crate::util::lists::{texts, distinct, texts_contain};
use crate::message::ServerStateMessage;

verus! {

/// What this server knows of another server: the topics its clients hold,
/// whether a connection to it is open, its id once known, its address, and
/// how many connection attempts have failed in a row.
#[derive(Debug)]
pub struct Peer {
    topics: Vec<String>,
    connected: bool,
    server_id: Option<String>,
    address: Address,
    connection_attempts: u32,
}

/// The plain values of a peer.
pub struct PeerView {
    pub topics: Set<Seq<char>>,
    pub connected: bool,
    pub server_id: Option<Seq<char>>,
    pub address: AddressView,
    pub connection_attempts: u32,
}

/// An optional text as a plain value.
pub open spec fn opt_text(o: Option<String>) -> Option<Seq<char>> {
    match o {
        Some(s) => Some(s@),
        None => None,
    }
}

impl View for Peer {
    type V = PeerView;

    closed spec fn view(&self) -> PeerView {
        PeerView {
            topics: texts(self.topics@).to_set(),
            connected: self.connected,
            server_id: opt_text(self.server_id),
            address: self.address@,
            connection_attempts: self.connection_attempts,
        }
    }
}

/// Adds to a duplicate-free list of texts those of `new` it lacks.
fn add_texts(set: &mut Vec<String>, new: &Vec<String>)
    requires
        distinct(texts(old(set)@)),
    ensures
        distinct(texts(final(set)@)),
        texts(final(set)@).to_set() == texts(old(set)@).to_set().union(texts(new@).to_set()),
{
    let ghost base = texts(old(set)@).to_set();
    let mut i: usize = 0;
    while i < new.len()
        invariant
            i <= new@.len(),
            distinct(texts(set@)),
            texts(set@).to_set() == base.union(texts(new@).take(i as int).to_set()),
        decreases new@.len() - i,
    {
        let ghost before = texts(set@);
        let ghost x = new@[i as int]@;
        proof {
            assert(texts(new@).take(i + 1) =~= texts(new@).take(i as int).push(x));
            texts(new@).take(i as int).lemma_push_to_set_commute(x);
        }
        if !texts_contain(set, &new[i]) {
            set.push(new[i].clone());
            proof {
                assert(texts(set@) =~= before.push(x));
                before.lemma_push_to_set_commute(x);
                assert(!before.contains(x));
                assert forall|a: int, b: int| 0 <= a < texts(set@).len() && 0 <= b < texts(set@).len() && a != b implies texts(set@)[a] != texts(set@)[b] by {
                    if a == before.len() {
                        assert(before[b] != x);
                    } else if b == before.len() {
                        assert(before[a] != x);
                    }
                }
            }
        } else {
            proof {
                assert(before.contains(x));
                assert(before.to_set().contains(x));
                assert(before.to_set().insert(x) =~= before.to_set());
            }
        }
        i = i + 1;
    }
    proof {
        assert(texts(new@).take(i as int) =~= texts(new@));
    }
}

impl PartialEq for Peer {
    fn eq(&self, other: &Self) -> (r: bool) {
        match (&self.server_id, &other.server_id) {
            (Some(a), Some(b)) => *a == *b,
            (None, None) => true,
            _ => false,
        }
    }
}

impl Eq for Peer {}

impl vstd::std_specs::cmp::PartialEqSpecImpl for Peer {
    open spec fn obeys_eq_spec() -> bool {
        true
    }

    /// Two peers are the same when they have the same id.
    open spec fn eq_spec(&self, other: &Self) -> bool {
        self@.server_id == other@.server_id
    }
}

impl Peer {
    /// The peer's topics are free of repeats.
    pub closed spec fn wf(&self) -> bool {
        distinct(texts(self.topics@))
    }

    /// A peer at an address, not yet connected, with no topics and no id.
    pub fn new(addr: Address) -> (r: Self)
        ensures
            r.wf(),
            r@ == (PeerView {
                topics: Set::empty(),
                connected: false,
                server_id: None,
                address: addr@,
                connection_attempts: 0,
            }),
    {
        let r = Peer { topics: Vec::new(), connected: false, server_id: None, address: addr, connection_attempts: 0 };
        proof {
            assert(texts(r.topics@) =~= Seq::<Seq<char>>::empty());
            assert(texts(r.topics@).to_set() =~= Set::<Seq<char>>::empty());
        }
        r
    }

    pub fn is_connected(&self) -> (r: bool)
        ensures
            r == self@.connected,
    {
        self.connected
    }

    pub fn get_connection_attempts(&self) -> (r: u32)
        ensures
            r == self@.connection_attempts,
    {
        self.connection_attempts
    }

    pub fn address(&self) -> (r: Address)
        ensures
            r@ == self@.address,
    {
        self.address.clone()
    }

    pub fn server_id(&self) -> (r: Option<String>)
        ensures
            opt_text(r) == self@.server_id,
    {
        match &self.server_id {
            Some(s) => Some(s.clone()),
            None => None,
        }
    }

    /// Replaces the peer's topics with those of `new_topics`.
    pub fn update_topics(&mut self, new_topics: Vec<String>)
        requires
            old(self).wf(),
        ensures
            final(self).wf(),
            final(self)@ == (PeerView { topics: texts(new_topics@).to_set(), ..old(self)@ }),
    {
        let mut fresh: Vec<String> = Vec::new();
        proof {
            assert(texts(fresh@) =~= Seq::<Seq<char>>::empty());
            assert(texts(fresh@).to_set() =~= Set::<Seq<char>>::empty());
        }
        add_texts(&mut fresh, &new_topics);
        proof {
            assert(Set::<Seq<char>>::empty().union(texts(new_topics@).to_set()) =~= texts(new_topics@).to_set());
        }
        self.topics = fresh;
    }

    /// Whether the peer's clients hold a topic.
    pub fn contains_topic(&self, topic: &String) -> (r: bool)
        ensures
            r == self@.topics.contains(topic@),
    {
        texts_contain(&self.topics, topic)
    }

    /// Counts a connection attempt to a peer that is not connected.
    pub fn record_connection_attempt(&mut self)
        requires
            !old(self)@.connected,
            old(self)@.connection_attempts < u32::MAX,
        ensures
            final(self).wf() == old(self).wf(),
            final(self)@ == (PeerView { connection_attempts: (old(self)@.connection_attempts + 1) as u32, ..old(self)@ }),
    {
        self.connection_attempts = self.connection_attempts + 1;
    }

    /// A connection is open and the peer has sent its state: the peer is
    /// connected, its topics grow by those of the state, its id is the
    /// state's, and its failed attempts are forgotten.
    pub fn complete_connection(&mut self, state: &ServerStateMessage)
        requires
            old(self).wf(),
        ensures
            final(self).wf(),
            final(self)@ == (PeerView {
                topics: old(self)@.topics.union(state@.topics.to_set()),
                connected: true,
                server_id: Some(state@.uuid),
                address: old(self)@.address,
                connection_attempts: 0,
            }),
    {
        add_texts(&mut self.topics, &state.topics);
        self.connected = true;
        self.server_id = Some(state.uuid.clone());
        self.connection_attempts = 0;
    }

    /// The connection to the peer is closed.
    pub fn close_websock(&mut self)
        requires
            old(self)@.connected,
        ensures
            final(self).wf() == old(self).wf(),
            final(self)@ == (PeerView { connected: false, ..old(self)@ }),
    {
        self.connected = false;
    }
}

} // verus!
