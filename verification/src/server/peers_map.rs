//! The other servers that this one knows.

use vstd::prelude::*;
use crate::util::{Address, AddressView};
use crate::util::lists::{texts, distinct, lemma_filter_take};
use crate::message::ServerStateMessage;
use crate::server::peer::{Peer, PeerView, opt_text};

verus! {

broadcast use vstd::seq_lib::group_filter_ensures;

/// The known servers, in the order they became known.
pub struct PeersMap {
    peers_map: Vec<Peer>,
}

/// Peers as plain values.
pub open spec fn peers_view(v: Seq<Peer>) -> Seq<PeerView> {
    v.map_values(|p: Peer| p@)
}

impl View for PeersMap {
    type V = Seq<PeerView>;

    closed spec fn view(&self) -> Seq<PeerView> {
        peers_view(self.peers_map@)
    }
}

/// A peer's id, or the empty text for a peer whose id is not known yet.
pub open spec fn id_or_empty(p: PeerView) -> Seq<char> {
    match p.server_id {
        Some(s) => s,
        None => Seq::empty(),
    }
}

/// Some peer has this address.
pub open spec fn has_address(ps: Seq<PeerView>, a: AddressView) -> bool {
    exists|i: int| 0 <= i < ps.len() && ps[i].address == a
}

/// No two peers share an address.
pub open spec fn addresses_unique(ps: Seq<PeerView>) -> bool {
    forall|i: int, j: int| 0 <= i < ps.len() && 0 <= j < ps.len() && i != j ==> ps[i].address != ps[j].address
}

/// Keeps the peers whose failed attempts do not exceed `max`.
pub open spec fn attempts_within(max: u32) -> spec_fn(PeerView) -> bool {
    |p: PeerView| p.connection_attempts <= max
}

/// `i` is the first place where `pred` holds.
pub open spec fn first_where(ps: Seq<PeerView>, pred: spec_fn(PeerView) -> bool, i: int) -> bool {
    0 <= i < ps.len() && pred(ps[i]) && forall|j: int| 0 <= j < i ==> !pred(#[trigger] ps[j])
}

/// The peer has this id.
pub open spec fn has_id(id: Seq<char>) -> spec_fn(PeerView) -> bool {
    |p: PeerView| p.server_id == Some(id)
}

/// The peer has this address.
pub open spec fn at_address(a: AddressView) -> spec_fn(PeerView) -> bool {
    |p: PeerView| p.address == a
}

impl PeersMap {
    /// Every peer is well formed.
    pub closed spec fn wf(&self) -> bool {
        forall|i: int| 0 <= i < self.peers_map@.len() ==> (#[trigger] self.peers_map@[i]).wf()
    }

    pub fn new() -> (r: Self)
        ensures
            r.wf(),
            r@ == Seq::<PeerView>::empty(),
    {
        let r = PeersMap { peers_map: Vec::new() };
        assert(r@ =~= Seq::<PeerView>::empty());
        r
    }

    /// A map of the given peers, in order, repeats included.
    pub fn new_with_peers(peers: Vec<Peer>) -> (r: Self)
        requires
            forall|i: int| 0 <= i < peers@.len() ==> (#[trigger] peers@[i]).wf(),
        ensures
            r.wf(),
            r@ == peers_view(peers@),
    {
        PeersMap { peers_map: peers }
    }

    /// The peers, in order.
    pub fn get_all_peers(&self) -> (r: &Vec<Peer>)
        ensures
            peers_view(r@) == self@,
    {
        &self.peers_map
    }

    pub fn len(&self) -> (r: usize)
        ensures
            r == self@.len(),
    {
        self.peers_map.len()
    }

    /// The peer at a place.
    pub fn peer(&self, i: usize) -> (r: &Peer)
        requires
            i < self@.len(),
        ensures
            r@ == self@[i as int],
            self.wf() ==> r.wf(),
    {
        &self.peers_map[i]
    }

    /// Whether some peer has an id that, or the empty text for a peer whose
    /// id is not known, equals `server_id`.
    pub fn contains_peer(&self, server_id: &str) -> (r: bool)
        ensures
            r == exists|i: int| 0 <= i < self@.len() && id_or_empty(#[trigger] self@[i]) == server_id@,
    {
        let id = server_id.to_owned();
        let mut i: usize = 0;
        while i < self.peers_map.len()
            invariant
                i <= self.peers_map@.len(),
                id@ == server_id@,
                forall|j: int| 0 <= j < i ==> id_or_empty(#[trigger] self@[j]) != server_id@,
            decreases self.peers_map@.len() - i,
        {
            let empty = id.as_str().is_empty();
            let found = match self.peers_map[i].server_id() {
                Some(s) => s == id,
                None => empty,
            };
            proof {
                assert(self@[i as int] == self.peers_map@[i as int]@);
                if empty {
                    assert(id@ =~= Seq::<char>::empty());
                }
            }
            if found {
                return true;
            }
            i = i + 1;
        }
        false
    }

    /// Whether some peer has this address.
    pub fn contains_peer_addr(&self, peer_addr: &Address) -> (r: bool)
        ensures
            r == has_address(self@, peer_addr@),
    {
        match self.index_where_addr(peer_addr) {
            Some(_) => true,
            None => false,
        }
    }

    fn index_where_addr(&self, addr: &Address) -> (r: Option<usize>)
        ensures
            match r {
                Some(i) => first_where(self@, at_address(addr@), i as int),
                None => !has_address(self@, addr@),
            },
    {
        let mut i: usize = 0;
        while i < self.peers_map.len()
            invariant
                i <= self.peers_map@.len(),
                forall|j: int| 0 <= j < i ==> !at_address(addr@)(#[trigger] self@[j]),
            decreases self.peers_map@.len() - i,
        {
            let a = self.peers_map[i].address();
            proof {
                assert(self@[i as int] == self.peers_map@[i as int]@);
            }
            if a == *addr {
                return Some(i);
            }
            i = i + 1;
        }
        proof {
            if has_address(self@, addr@) {
                let k = choose|k: int| 0 <= k < self@.len() && self@[k].address == addr@;
                assert(!at_address(addr@)(self@[k]));
            }
        }
        None
    }

    fn index_where_id(&self, id: &String) -> (r: Option<usize>)
        ensures
            match r {
                Some(i) => first_where(self@, has_id(id@), i as int),
                None => forall|j: int| 0 <= j < self@.len() ==> !has_id(id@)(#[trigger] self@[j]),
            },
    {
        let mut i: usize = 0;
        while i < self.peers_map.len()
            invariant
                i <= self.peers_map@.len(),
                forall|j: int| 0 <= j < i ==> !has_id(id@)(#[trigger] self@[j]),
            decreases self.peers_map@.len() - i,
        {
            let found = match self.peers_map[i].server_id() {
                Some(s) => s == *id,
                None => false,
            };
            proof {
                assert(self@[i as int] == self.peers_map@[i as int]@);
            }
            if found {
                return Some(i);
            }
            i = i + 1;
        }
        None
    }

    /// The first peer with this id.
    pub fn get_by_id(&self, id: &str) -> (r: Option<&Peer>)
        ensures
            match r {
                Some(p) => exists|i: int| first_where(self@, has_id(id@), i) && #[trigger] self@[i] == p@,
                None => forall|j: int| 0 <= j < self@.len() ==> !has_id(id@)(#[trigger] self@[j]),
            },
    {
        let key = id.to_owned();
        match self.index_where_id(&key) {
            Some(i) => {
                assert(self@[i as int] == self.peers_map@[i as int]@);
                Some(&self.peers_map[i])
            },
            None => None,
        }
    }

    /// The place of the first peer with this id.
    pub fn position_by_id(&self, id: &str) -> (r: Option<usize>)
        ensures
            match r {
                Some(i) => first_where(self@, has_id(id@), i as int),
                None => forall|j: int| 0 <= j < self@.len() ==> !has_id(id@)(#[trigger] self@[j]),
            },
    {
        let key = id.to_owned();
        self.index_where_id(&key)
    }

    /// The first peer with this address.
    pub fn get_by_addr(&self, addr: &Address) -> (r: Option<&Peer>)
        ensures
            match r {
                Some(p) => exists|i: int| first_where(self@, at_address(addr@), i) && #[trigger] self@[i] == p@,
                None => !has_address(self@, addr@),
            },
    {
        match self.index_where_addr(addr) {
            Some(i) => {
                assert(self@[i as int] == self.peers_map@[i as int]@);
                Some(&self.peers_map[i])
            },
            None => None,
        }
    }

    /// Adds a peer unless one with its address is known; says whether it
    /// added it.
    pub fn add_peer(&mut self, peer: Peer) -> (r: bool)
        requires
            old(self).wf(),
            peer.wf(),
        ensures
            final(self).wf(),
            r == !has_address(old(self)@, peer@.address),
            r ==> final(self)@ == old(self)@.push(peer@),
            !r ==> final(self)@ == old(self)@,
    {
        let a = peer.address();
        if self.contains_peer_addr(&a) {
            return false;
        }
        let ghost before = self.peers_map@;
        self.peers_map.push(peer);
        proof {
            assert(self@ =~= peers_view(before).push(peer@));
            assert forall|i: int| 0 <= i < self.peers_map@.len() implies (#[trigger] self.peers_map@[i]).wf() by {
                if i < before.len() {
                    assert(self.peers_map@[i] == before[i]);
                }
            }
        }
        true
    }

    /// Drops the peers whose failed attempts exceed `max_connection_attempts`.
    pub fn check_connection_attempts_and_remove(&mut self, max_connection_attempts: u32)
        requires
            old(self).wf(),
        ensures
            final(self).wf(),
            final(self)@ == old(self)@.filter(attempts_within(max_connection_attempts)),
    {
        let ghost ps = old(self)@;
        let ghost p = attempts_within(max_connection_attempts);
        let mut old_peers: Vec<Peer> = Vec::new();
        std::mem::swap(&mut old_peers, &mut self.peers_map);
        let ghost orig = old_peers@;
        let mut kept_rev: Vec<Peer> = Vec::new();
        let ghost mut n: int = orig.len() as int;
        proof {
            reveal(Seq::filter);
            assert(peers_view(orig) == ps);
        }
        while old_peers.len() > 0
            invariant
                ps == peers_view(orig),
                p == attempts_within(max_connection_attempts),
                old_peers@ == orig.take(old_peers@.len() as int),
                old_peers@.len() <= orig.len(),
                forall|i: int| 0 <= i < orig.len() ==> (#[trigger] orig[i]).wf(),
                forall|i: int| 0 <= i < kept_rev@.len() ==> (#[trigger] kept_rev@[i]).wf(),
                peers_view(kept_rev@).reverse() == ps.skip(old_peers@.len() as int).filter(p),
            decreases old_peers@.len(),
        {
            let ghost k = old_peers@.len() as int;
            let peer = old_peers.pop().unwrap();
            proof {
                assert(peer == orig[k - 1]);
                assert(old_peers@ =~= orig.take(k - 1));
                lemma_filter_prepend_view(ps, p, k - 1);
            }
            if peer.get_connection_attempts() <= max_connection_attempts {
                let ghost before = kept_rev@;
                kept_rev.push(peer);
                proof {
                    assert(peers_view(kept_rev@) =~= peers_view(before).push(peer@));
                    assert(peers_view(kept_rev@).reverse() =~= seq![peer@] + peers_view(before).reverse());
                }
            }
        }
        let mut kept: Vec<Peer> = Vec::new();
        let ghost rev = kept_rev@;
        while kept_rev.len() > 0
            invariant
                forall|i: int| 0 <= i < rev.len() ==> (#[trigger] rev[i]).wf(),
                kept_rev@ == rev.take(kept_rev@.len() as int),
                kept_rev@.len() <= rev.len(),
                kept@ == rev.skip(kept_rev@.len() as int).reverse(),
            decreases kept_rev@.len(),
        {
            let ghost k = kept_rev@.len() as int;
            let q = kept_rev.pop().unwrap();
            proof {
                assert(q == rev[k - 1]);
                assert(kept_rev@ =~= rev.take(k - 1));
            }
            kept.push(q);
            proof {
                assert(kept@ =~= rev.skip(k - 1).reverse());
            }
        }
        proof {
            assert(ps.skip(0) =~= ps);
            assert(rev.skip(0) =~= rev);
            assert(peers_view(kept@) =~= peers_view(rev).reverse());
        }
        self.peers_map = kept;
    }

    /// The places of the peers whose clients hold a topic, in order.
    pub fn peers_with_topic(&self, topic: &str) -> (r: Vec<usize>)
        ensures
            forall|k: int| 0 <= k < r@.len() ==> (#[trigger] r@[k]) < self@.len(),
            forall|i: int| 0 <= i < self@.len() ==> (r@.contains(i as usize) <==> (#[trigger] self@[i]).topics.contains(topic@)),
            forall|a: int, b: int| 0 <= a < b < r@.len() ==> r@[a] < r@[b],
    {
        let t = topic.to_owned();
        let mut out: Vec<usize> = Vec::new();
        let mut i: usize = 0;
        while i < self.peers_map.len()
            invariant
                i <= self.peers_map@.len(),
                t@ == topic@,
                forall|k: int| 0 <= k < out@.len() ==> (#[trigger] out@[k]) < i,
                forall|j: int| 0 <= j < i ==> (out@.contains(j as usize) <==> (#[trigger] self@[j]).topics.contains(topic@)),
                forall|a: int, b: int| 0 <= a < b < out@.len() ==> out@[a] < out@[b],
            decreases self.peers_map@.len() - i,
        {
            proof {
                assert(self@[i as int] == self.peers_map@[i as int]@);
            }
            if self.peers_map[i].contains_topic(&t) {
                let ghost before = out@;
                out.push(i);
                proof {
                    assert forall|j: int| 0 <= j < i + 1 implies (out@.contains(j as usize) <==> (#[trigger] self@[j]).topics.contains(topic@)) by {
                        if j < i {
                            if out@.contains(j as usize) {
                                let m = choose|m: int| 0 <= m < out@.len() && out@[m] == j as usize;
                                assert(m < before.len());
                                assert(before.contains(j as usize));
                            }
                            if before.contains(j as usize) {
                                let m = choose|m: int| 0 <= m < before.len() && before[m] == j as usize;
                                assert(out@[m] == j as usize);
                            }
                        } else {
                            assert(out@[before.len() as int] == i);
                        }
                    }
                }
            } else {
                proof {
                    assert(!out@.contains(i as usize));
                }
            }
            i = i + 1;
        }
        out
    }

    /// Replaces the topics of the peer at a place.
    pub fn update_topics_at(&mut self, i: usize, new_topics: Vec<String>)
        requires
            old(self).wf(),
            i < old(self)@.len(),
        ensures
            final(self).wf(),
            final(self)@ == old(self)@.update(i as int, PeerView { topics: texts(new_topics@).to_set(), ..old(self)@[i as int] }),
    {
        let mut p = self.peers_map.remove(i);
        assert(p@ == old(self)@[i as int]);
        p.update_topics(new_topics);
        self.peers_map.insert(i, p);
        proof {
            assert(self@ =~= old(self)@.update(i as int, p@));
        }
    }

    /// Counts a connection attempt to the peer at a place.
    pub fn record_connection_attempt_at(&mut self, i: usize)
        requires
            old(self).wf(),
            i < old(self)@.len(),
            !old(self)@[i as int].connected,
            old(self)@[i as int].connection_attempts < u32::MAX,
        ensures
            final(self).wf(),
            final(self)@ == old(self)@.update(i as int, PeerView {
                connection_attempts: (old(self)@[i as int].connection_attempts + 1) as u32,
                ..old(self)@[i as int]
            }),
    {
        let mut p = self.peers_map.remove(i);
        assert(p@ == old(self)@[i as int]);
        p.record_connection_attempt();
        self.peers_map.insert(i, p);
        proof {
            assert(self@ =~= old(self)@.update(i as int, p@));
        }
    }

    /// The peer at a place is connected and has sent its state.
    pub fn complete_connection_at(&mut self, i: usize, state: &ServerStateMessage)
        requires
            old(self).wf(),
            i < old(self)@.len(),
        ensures
            final(self).wf(),
            final(self)@ == old(self)@.update(i as int, PeerView {
                topics: old(self)@[i as int].topics.union(state@.topics.to_set()),
                connected: true,
                server_id: Some(state@.uuid),
                address: old(self)@[i as int].address,
                connection_attempts: 0,
            }),
    {
        let mut p = self.peers_map.remove(i);
        assert(p@ == old(self)@[i as int]);
        p.complete_connection(state);
        self.peers_map.insert(i, p);
        proof {
            assert(self@ =~= old(self)@.update(i as int, p@));
        }
    }

    /// The connection to the peer at a place is closed.
    pub fn close_websock_at(&mut self, i: usize)
        requires
            old(self).wf(),
            i < old(self)@.len(),
            old(self)@[i as int].connected,
        ensures
            final(self).wf(),
            final(self)@ == old(self)@.update(i as int, PeerView { connected: false, ..old(self)@[i as int] }),
    {
        let mut p = self.peers_map.remove(i);
        assert(p@ == old(self)@[i as int]);
        p.close_websock();
        self.peers_map.insert(i, p);
        proof {
            assert(self@ =~= old(self)@.update(i as int, p@));
        }
    }
}

/// Filtering a list from place `k` on: the element at `k`, if kept, comes
/// first.
proof fn lemma_filter_prepend_view(ps: Seq<PeerView>, p: spec_fn(PeerView) -> bool, k: int)
    requires
        0 <= k < ps.len(),
    ensures
        ps.skip(k).filter(p) == if p(ps[k]) { seq![ps[k]] + ps.skip(k + 1).filter(p) } else { ps.skip(k + 1).filter(p) },
{
    ps.skip(k + 1).lemma_filter_prepend(ps[k], p);
    assert(ps.skip(k) =~= seq![ps[k]] + ps.skip(k + 1));
}

/// Adding a peer keeps the addresses of the known peers unique.
pub proof fn lemma_add_peer_keeps_addresses_unique(ps: Seq<PeerView>, p: PeerView)
    requires
        addresses_unique(ps),
    ensures
        addresses_unique(if has_address(ps, p.address) { ps } else { ps.push(p) }),
{
}

} // verus!
