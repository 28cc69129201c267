//! Which local clients subscribe to which topics.

use vstd::prelude::*;
use crate::util::lists::{texts, differs_from, outside_of, distinct, lemma_filter_take, texts_contain, copy_texts, texts_without, texts_without_any};
use crate::message::{ServerStateMessage, WireMessage, encode_state, StateView};

verus! {

broadcast use vstd::seq_lib::group_filter_ensures;

/// A topic and the ids of its subscribers, in the order they subscribed.
pub struct TopicEntry {
    pub topic: String,
    pub subscribers: Vec<String>,
}

/// The plain values of a topic entry.
pub type EntryView = (Seq<char>, Seq<Seq<char>>);

impl View for TopicEntry {
    type V = EntryView;

    open spec fn view(&self) -> EntryView {
        (self.topic@, texts(self.subscribers@))
    }
}

impl TopicEntry {
    fn duplicate(&self) -> (r: TopicEntry)
        ensures
            r@ == self@,
    {
        TopicEntry { topic: self.topic.clone(), subscribers: copy_texts(&self.subscribers) }
    }
}

/// The topics that local clients subscribe to, each with its subscribers.
pub struct TopicsMap {
    topic_map: Vec<TopicEntry>,
}

/// The entries of a topics map as plain values.
pub open spec fn entries_view(v: Seq<TopicEntry>) -> Seq<EntryView> {
    v.map_values(|e: TopicEntry| e@)
}

impl View for TopicsMap {
    type V = Seq<EntryView>;

    closed spec fn view(&self) -> Seq<EntryView> {
        entries_view(self.topic_map@)
    }
}

/// The topics of a map, in order.
pub open spec fn topics_of(es: Seq<EntryView>) -> Seq<Seq<char>> {
    es.map_values(|e: EntryView| e.0)
}

/// No topic occurs twice.
pub open spec fn topics_unique(es: Seq<EntryView>) -> bool {
    distinct(topics_of(es))
}

/// Every topic has a subscriber.
pub open spec fn no_unused_topics(es: Seq<EntryView>) -> bool {
    forall|i: int| 0 <= i < es.len() ==> (#[trigger] es[i]).1.len() > 0
}

/// The subscribers of a topic; none for a topic the map does not hold.
pub open spec fn subscribers_in(es: Seq<EntryView>, t: Seq<char>) -> Seq<Seq<char>> {
    if topics_of(es).contains(t) {
        es[topics_of(es).index_of(t)].1
    } else {
        Seq::empty()
    }
}

/// The subscriber `w` is among the subscribers of `t`.
pub open spec fn subscribed(es: Seq<EntryView>, t: Seq<char>, w: Seq<char>) -> bool {
    exists|e: EntryView| es.contains(e) && e.0 == t && e.1.contains(w)
}

/// Keeps the topics that have a subscriber.
pub open spec fn in_use() -> spec_fn(EntryView) -> bool {
    |e: EntryView| e.1.len() > 0
}

/// What `push` makes of a map: `w` joins the end of `t`'s subscribers,
/// and a topic the map did not hold comes last with `w` alone.
pub open spec fn push_spec(es: Seq<EntryView>, t: Seq<char>, w: Seq<char>) -> Seq<EntryView> {
    if topics_of(es).contains(t) {
        es.map_values(|e: EntryView| if e.0 == t { (e.0, e.1.push(w)) } else { e })
    } else {
        es.push((t, seq![w]))
    }
}

/// The map without its topics that have no subscriber.
pub open spec fn drop_unused(es: Seq<EntryView>) -> Seq<EntryView> {
    es.filter(in_use())
}

/// Keeps, among the subscribers of `t`, those that `p` accepts.
pub open spec fn strip_in(t: Seq<char>, p: spec_fn(Seq<char>) -> bool) -> spec_fn(EntryView) -> EntryView {
    |e: EntryView| if e.0 == t { (e.0, e.1.filter(p)) } else { e }
}

/// Keeps, among the subscribers of every topic, those that `p` accepts.
pub open spec fn strip_all(p: spec_fn(Seq<char>) -> bool) -> spec_fn(EntryView) -> EntryView {
    |e: EntryView| (e.0, e.1.filter(p))
}

/// The transform that `strip` applies to each entry.
pub open spec fn strip_with(only: Option<Seq<char>>, p: spec_fn(Seq<char>) -> bool) -> spec_fn(EntryView) -> EntryView {
    match only {
        Some(t) => strip_in(t, p),
        None => strip_all(p),
    }
}

/// What `remove_subscriber_from_topic` makes of a map: `w` leaves `t`, then
/// the topics without subscribers go.
pub open spec fn remove_from_topic_spec(es: Seq<EntryView>, t: Seq<char>, w: Seq<char>) -> Seq<EntryView> {
    drop_unused(es.map_values(strip_in(t, differs_from(w))))
}

/// What `remove_subscriber` makes of a map: `w` leaves every topic, then the
/// topics without subscribers go.
pub open spec fn remove_everywhere_spec(es: Seq<EntryView>, w: Seq<char>) -> Seq<EntryView> {
    drop_unused(es.map_values(strip_all(differs_from(w))))
}

/// What `prune_failed` makes of a map: the failed subscribers leave `t`,
/// then the topics without subscribers go.
pub open spec fn prune_spec(es: Seq<EntryView>, t: Seq<char>, failed: Seq<Seq<char>>) -> Seq<EntryView> {
    drop_unused(es.map_values(strip_in(t, outside_of(failed))))
}

/// Keeps the entries that `w` subscribes to.
pub open spec fn has_subscriber(w: Seq<char>) -> spec_fn(EntryView) -> bool {
    |e: EntryView| e.1.contains(w)
}

/// The topics that `w` subscribes to, in order.
pub open spec fn subscribed_topics(es: Seq<EntryView>, w: Seq<char>) -> Seq<Seq<char>> {
    topics_of(es.filter(has_subscriber(w)))
}

/// `w` leaves each of `ts` in turn.
pub open spec fn remove_each(es: Seq<EntryView>, ts: Seq<Seq<char>>, w: Seq<char>) -> Seq<EntryView>
    decreases ts.len(),
{
    if ts.len() == 0 {
        es
    } else {
        remove_from_topic_spec(remove_each(es, ts.drop_last(), w), ts.last(), w)
    }
}

/// `w` joins each of `ts` in turn.
pub open spec fn push_each(es: Seq<EntryView>, ts: Seq<Seq<char>>, w: Seq<char>) -> Seq<EntryView>
    decreases ts.len(),
{
    if ts.len() == 0 {
        es
    } else {
        push_spec(push_each(es, ts.drop_last(), w), ts.last(), w)
    }
}

/// What `update_topics_for_subscriber` makes of a map: `w` leaves the topics
/// it holds that `new` does not name, then joins, in `new`'s order, the
/// topics of `new` that it did not hold.
pub open spec fn update_spec(es: Seq<EntryView>, w: Seq<char>, new: Seq<Seq<char>>) -> Seq<EntryView> {
    let cur = subscribed_topics(es, w);
    push_each(remove_each(es, cur.filter(outside_of(new)), w), new.filter(outside_of(cur)), w)
}

impl TopicsMap {
    /// The map is well formed: no topic occurs twice, and every topic has a
    /// subscriber.
    pub open spec fn wf(&self) -> bool {
        &&& topics_unique(self@)
        &&& no_unused_topics(self@)
    }

    pub fn new() -> (r: Self)
        ensures
            r.wf(),
            r@ == Seq::<EntryView>::empty(),
    {
        let r = TopicsMap { topic_map: Vec::new() };
        assert(r@ =~= Seq::<EntryView>::empty());
        r
    }

    /// The entries, topic by topic.
    pub fn get(&self) -> (r: &Vec<TopicEntry>)
        ensures
            entries_view(r@) == self@,
    {
        &self.topic_map
    }

    /// The topics, in order.
    pub fn get_all_topics(&self) -> (r: Vec<String>)
        ensures
            texts(r@) == topics_of(self@),
    {
        let mut out: Vec<String> = Vec::new();
        let mut i: usize = 0;
        while i < self.topic_map.len()
            invariant
                i <= self.topic_map@.len(),
                texts(out@) =~= topics_of(self@).take(i as int),
            decreases self.topic_map@.len() - i,
        {
            out.push(self.topic_map[i].topic.clone());
            proof {
                assert(topics_of(self@).take(i + 1) =~= topics_of(self@).take(i as int).push(self@[i as int].0));
            }
            i = i + 1;
        }
        proof {
            assert(topics_of(self@).take(i as int) =~= topics_of(self@));
        }
        out
    }

    /// The index of a topic's entry.
    fn find(&self, topic: &String) -> (r: Option<usize>)
        requires
            self.wf(),
        ensures
            match r {
                Some(i) => i < self@.len() && self@[i as int].0 == topic@ && topics_of(self@).contains(topic@)
                    && topics_of(self@).index_of(topic@) == i,
                None => !topics_of(self@).contains(topic@),
            },
    {
        let mut i: usize = 0;
        while i < self.topic_map.len()
            invariant
                i <= self.topic_map@.len(),
                self.wf(),
                forall|j: int| 0 <= j < i ==> self@[j].0 != topic@,
            decreases self.topic_map@.len() - i,
        {
            if self.topic_map[i].topic == *topic {
                proof {
                    let ts = topics_of(self@);
                    assert(ts[i as int] == topic@);
                    assert(ts.contains(topic@));
                    let k = ts.index_of(topic@);
                    assert(0 <= k < ts.len() && ts[k] == topic@);
                    assert(distinct(ts));
                    assert(k == i);
                }
                return Some(i);
            }
            i = i + 1;
        }
        proof {
            if topics_of(self@).contains(topic@) {
                let k = choose|k: int| 0 <= k < topics_of(self@).len() && topics_of(self@)[k] == topic@;
                assert(self@[k].0 == topic@);
            }
        }
        None
    }

    /// Whether the map holds a topic.
    pub fn contains_topic(&self, topic: &str) -> (r: bool)
        requires
            self.wf(),
        ensures
            r == topics_of(self@).contains(topic@),
    {
        let t = topic.to_owned();
        self.find(&t).is_some()
    }

    /// The subscribers of a topic, none for a topic the map does not hold.
    pub fn subscribers_of(&self, topic: &str) -> (r: Vec<String>)
        requires
            self.wf(),
        ensures
            texts(r@) == subscribers_in(self@, topic@),
    {
        let t = topic.to_owned();
        match self.find(&t) {
            Some(i) => copy_texts(&self.topic_map[i].subscribers),
            None => {
                let r: Vec<String> = Vec::new();
                assert(texts(r@) =~= Seq::<Seq<char>>::empty());
                r
            },
        }
    }

    /// Adds a subscriber to the end of a topic's subscribers, creating the
    /// topic when the map does not hold it.
    pub fn push(&mut self, topic: String, ws: String)
        requires
            old(self).wf(),
        ensures
            final(self).wf(),
            final(self)@ == push_spec(old(self)@, topic@, ws@),
    {
        match self.find(&topic) {
            Some(i) => {
                let e = &self.topic_map[i];
                let mut subs = copy_texts(&e.subscribers);
                let ghost old_subs = texts(subs@);
                subs.push(ws);
                let ne = TopicEntry { topic: e.topic.clone(), subscribers: subs };
                self.topic_map.set(i, ne);
                proof {
                    assert(texts(subs@) =~= old_subs.push(ws@));
                    let es = old(self)@;
                    let target = es.map_values(|e: EntryView| if e.0 == topic@ { (e.0, e.1.push(ws@)) } else { e });
                    assert forall|j: int| 0 <= j < es.len() implies #[trigger] self@[j] == target[j] by {
                        if j != i {
                            assert(topics_of(es)[j] != topics_of(es)[i as int]);
                        }
                    }
                    assert(self@ =~= target);
                    assert(topics_of(self@) =~= topics_of(es));
                    lemma_push_in_use(es, topic@, ws@);
                }
            },
            None => {
                let ghost es = old(self)@;
                let mut subs: Vec<String> = Vec::new();
                subs.push(ws);
                self.topic_map.push(TopicEntry { topic, subscribers: subs });
                proof {
                    assert(texts(subs@) =~= seq![ws@]);
                    assert(self@ =~= es.push((topic@, seq![ws@])));
                    assert(topics_of(self@) =~= topics_of(es).push(topic@));
                    lemma_push_in_use(es, topic@, ws@);
                }
            },
        }
    }

    /// Drops the topics that have no subscriber.
    pub fn remove_unused_topics(&mut self)
        requires
            topics_unique(old(self)@),
        ensures
            final(self).wf(),
            final(self)@ == drop_unused(old(self)@),
    {
        let ghost es = old(self)@;
        let mut kept: Vec<TopicEntry> = Vec::new();
        let mut i: usize = 0;
        proof {
            reveal(Seq::filter);
            assert(entries_view(kept@) =~= es.take(0).filter(in_use()));
        }
        while i < self.topic_map.len()
            invariant
                i <= self.topic_map@.len(),
                es == self@,
                entries_view(kept@) == es.take(i as int).filter(in_use()),
            decreases self.topic_map@.len() - i,
        {
            proof {
                lemma_filter_take(es, in_use(), i as int);
            }
            if self.topic_map[i].subscribers.len() > 0 {
                let ghost before = kept@;
                kept.push(self.topic_map[i].duplicate());
                proof {
                    assert(entries_view(kept@) =~= entries_view(before).push(es[i as int]));
                }
            }
            i = i + 1;
        }
        proof {
            assert(es.take(i as int) =~= es);
            lemma_drop_unused_unique(es);
            lemma_drop_unused_in_use(es);
        }
        self.topic_map = kept;
    }
}

proof fn lemma_drop_unused_unique(es: Seq<EntryView>)
    requires
        topics_unique(es),
    ensures
        topics_unique(drop_unused(es)),
{
    let d = drop_unused(es);
    assert forall|i: int, j: int| 0 <= i < d.len() && 0 <= j < d.len() && i != j implies topics_of(d)[i] != topics_of(d)[j] by {
        lemma_filter_keeps_order(es, in_use(), i, j);
        let (a, b) = choose|a: int, b: int| 0 <= a < es.len() && 0 <= b < es.len() && a != b
            && es[a] == d[i] && es[b] == d[j];
        assert(topics_of(es)[a] != topics_of(es)[b]);
    }
}

/// Two distinct places of a filtered list come from two distinct places of
/// the list.
proof fn lemma_filter_keeps_order<A>(s: Seq<A>, p: spec_fn(A) -> bool, i: int, j: int)
    requires
        0 <= i < s.filter(p).len(),
        0 <= j < s.filter(p).len(),
        i != j,
    ensures
        exists|a: int, b: int| 0 <= a < s.len() && 0 <= b < s.len() && a != b
            && s[a] == s.filter(p)[i] && s[b] == s.filter(p)[j],
    decreases s.len(),
{
    reveal(Seq::filter);
    let f = s.filter(p);
    let rest = s.drop_last();
    let fr = rest.filter(p);
    if p(s.last()) {
        assert(f == fr.push(s.last()));
        if i == f.len() - 1 {
            let b = lemma_filter_origin(rest, p, j);
            assert(s[s.len() - 1] == f[i]);
            assert(s[b] == f[j]);
        } else if j == f.len() - 1 {
            let a = lemma_filter_origin(rest, p, i);
            assert(s[s.len() - 1] == f[j]);
            assert(s[a] == f[i]);
        } else {
            lemma_filter_keeps_order(rest, p, i, j);
            let (a, b) = choose|a: int, b: int| 0 <= a < rest.len() && 0 <= b < rest.len() && a != b
                && rest[a] == fr[i] && rest[b] == fr[j];
            assert(s[a] == f[i] && s[b] == f[j]);
        }
    } else {
        assert(f == fr);
        lemma_filter_keeps_order(rest, p, i, j);
        let (a, b) = choose|a: int, b: int| 0 <= a < rest.len() && 0 <= b < rest.len() && a != b
            && rest[a] == fr[i] && rest[b] == fr[j];
        assert(s[a] == f[i] && s[b] == f[j]);
    }
}

/// Each place of a filtered list comes from a place of the list.
proof fn lemma_filter_origin<A>(s: Seq<A>, p: spec_fn(A) -> bool, i: int) -> (a: int)
    requires
        0 <= i < s.filter(p).len(),
    ensures
        0 <= a < s.len(),
        s[a] == s.filter(p)[i],
    decreases s.len(),
{
    reveal(Seq::filter);
    let rest = s.drop_last();
    if p(s.last()) && i == s.filter(p).len() - 1 {
        (s.len() - 1) as int
    } else {
        lemma_filter_origin(rest, p, i)
    }
}

impl TopicsMap {
    /// Applies `strip_with(only, p)` to every entry, where `p` is "differs
    /// from `ws`" or, given `failed`, "not among `failed`".
    fn strip(&mut self, only: Option<&String>, ws: &String, failed: Option<&Vec<String>>)
        requires
            topics_unique(old(self)@),
        ensures
            topics_unique(final(self)@),
            final(self)@ == old(self)@.map_values(strip_with(
                match only { Some(t) => Some(t@), None => None },
                match failed { None => differs_from(ws@), Some(f) => outside_of(texts(f@)) },
            )),
    {
        let ghost es = old(self)@;
        let ghost f = strip_with(
            match only { Some(t) => Some(t@), None => None },
            match failed { None => differs_from(ws@), Some(f) => outside_of(texts(f@)) },
        );
        let mut i: usize = 0;
        while i < self.topic_map.len()
            invariant
                i <= self.topic_map@.len(),
                self.topic_map@.len() == es.len(),
                f == strip_with(
                    match only { Some(t) => Some(t@), None => None },
                    match failed { None => differs_from(ws@), Some(f) => outside_of(texts(f@)) },
                ),
                forall|j: int| 0 <= j < i ==> #[trigger] self@[j] == f(es[j]),
                forall|j: int| i <= j < es.len() ==> #[trigger] self@[j] == es[j],
            decreases self.topic_map@.len() - i,
        {
            let ghost before = self.topic_map@;
            let ghost old_view = self@;
            let e = &self.topic_map[i];
            assert(self@[i as int] == es[i as int]);
            assert(self@[i as int] == self.topic_map@[i as int]@);
            assert(e@ == es[i as int]);
            let applies = match only {
                Some(t) => e.topic == *t,
                None => true,
            };
            if applies {
                let subs = match failed {
                    None => texts_without(&e.subscribers, ws),
                    Some(fl) => texts_without_any(&e.subscribers, fl),
                };
                let ne = TopicEntry { topic: e.topic.clone(), subscribers: subs };
                assert(ne@ == f(es[i as int]));
                self.topic_map.set(i, ne);
                proof {
                    assert(self.topic_map@ == before.update(i as int, ne));
                    assert forall|j: int| 0 <= j < es.len() && j != i implies #[trigger] self@[j] == old_view[j] by {
                        assert(old_view[j] == before[j]@);
                    }
                }
            } else {
                assert(f(es[i as int]) == es[i as int]);
            }
            assert(self@[i as int] == f(es[i as int]));
            i = i + 1;
        }
        proof {
            assert(self@ =~= es.map_values(f));
            assert(topics_of(self@) =~= topics_of(es));
        }
    }

    /// Takes a subscriber off a topic, then drops the topics that have no
    /// subscriber.
    pub fn remove_subscriber_from_topic(&mut self, topic: &str, ws: &String)
        requires
            old(self).wf(),
        ensures
            final(self).wf(),
            final(self)@ == remove_from_topic_spec(old(self)@, topic@, ws@),
    {
        let t = topic.to_owned();
        self.strip(Some(&t), ws, None);
        self.remove_unused_topics();
    }

    /// Takes a subscriber off every topic, then drops the topics that have no
    /// subscriber.
    pub fn remove_subscriber(&mut self, ws: &String)
        requires
            old(self).wf(),
        ensures
            final(self).wf(),
            final(self)@ == remove_everywhere_spec(old(self)@, ws@),
    {
        self.strip(None, ws, None);
        self.remove_unused_topics();
    }

    /// After a send to a topic, takes the subscribers whose send failed off
    /// that topic, then drops the topics that have no subscriber.
    pub fn prune_failed(&mut self, topic: &str, failed: &Vec<String>)
        requires
            old(self).wf(),
        ensures
            final(self).wf(),
            final(self)@ == prune_spec(old(self)@, topic@, texts(failed@)),
    {
        let t = topic.to_owned();
        let none = String::new();
        self.strip(Some(&t), &none, Some(failed));
        self.remove_unused_topics();
    }

    /// The topics that a subscriber holds, in order.
    fn topics_of_subscriber(&self, ws: &String) -> (r: Vec<String>)
        ensures
            texts(r@) == subscribed_topics(self@, ws@),
    {
        let ghost es = self@;
        let ghost p = has_subscriber(ws@);
        let mut out: Vec<String> = Vec::new();
        let mut i: usize = 0;
        proof {
            reveal(Seq::filter);
            assert(texts(out@) =~= topics_of(es.take(0).filter(p)));
        }
        while i < self.topic_map.len()
            invariant
                i <= self.topic_map@.len(),
                es == self@,
                p == has_subscriber(ws@),
                texts(out@) == topics_of(es.take(i as int).filter(p)),
            decreases self.topic_map@.len() - i,
        {
            proof {
                lemma_filter_take(es, p, i as int);
            }
            if texts_contain(&self.topic_map[i].subscribers, ws) {
                let ghost before = out@;
                out.push(self.topic_map[i].topic.clone());
                proof {
                    assert(texts(out@) =~= texts(before).push(es[i as int].0));
                    assert(topics_of(es.take(i + 1).filter(p)) =~= topics_of(es.take(i as int).filter(p)).push(es[i as int].0));
                }
            }
            i = i + 1;
        }
        proof {
            assert(es.take(i as int) =~= es);
        }
        out
    }

    /// Sets the topics of a subscriber: it leaves the topics it holds that
    /// `new_topics` does not name, then joins, in order, the named topics it
    /// did not hold.
    pub fn update_topics_for_subscriber(&mut self, ws: &String, new_topics: Vec<String>)
        requires
            old(self).wf(),
        ensures
            final(self).wf(),
            final(self)@ == update_spec(old(self)@, ws@, texts(new_topics@)),
    {
        let ghost es = old(self)@;
        let ghost new = texts(new_topics@);
        let current = self.topics_of_subscriber(ws);
        let ghost cur = texts(current@);
        let ghost rm = outside_of(new);
        let mut i: usize = 0;
        proof {
            reveal(Seq::filter);
            assert(cur.take(0).filter(rm) =~= Seq::<Seq<char>>::empty());
        }
        while i < current.len()
            invariant
                i <= current@.len(),
                cur == texts(current@),
                cur == subscribed_topics(es, ws@),
                new == texts(new_topics@),
                rm == outside_of(new),
                self.wf(),
                self@ == remove_each(es, cur.take(i as int).filter(rm), ws@),
            decreases current@.len() - i,
        {
            proof {
                lemma_filter_take(cur, rm, i as int);
                assert(cur[i as int] == current@[i as int]@);
            }
            if !texts_contain(&new_topics, &current[i]) {
                self.remove_subscriber_from_topic(current[i].as_str(), ws);
                proof {
                    let ts = cur.take(i + 1).filter(rm);
                    assert(ts.drop_last() =~= cur.take(i as int).filter(rm));
                }
            }
            i = i + 1;
        }
        proof {
            assert(cur.take(i as int) =~= cur);
        }
        let ghost mid = self@;
        let ghost ad = outside_of(cur);
        let mut k: usize = 0;
        proof {
            reveal(Seq::filter);
            assert(new.take(0).filter(ad) =~= Seq::<Seq<char>>::empty());
        }
        while k < new_topics.len()
            invariant
                k <= new_topics@.len(),
                cur == texts(current@),
                new == texts(new_topics@),
                ad == outside_of(cur),
                self.wf(),
                self@ == push_each(mid, new.take(k as int).filter(ad), ws@),
            decreases new_topics@.len() - k,
        {
            proof {
                lemma_filter_take(new, ad, k as int);
                assert(new[k as int] == new_topics@[k as int]@);
            }
            if !texts_contain(&current, &new_topics[k]) {
                self.push(new_topics[k].clone(), ws.clone());
                proof {
                    let ts = new.take(k + 1).filter(ad);
                    assert(ts.drop_last() =~= new.take(k as int).filter(ad));
                }
            }
            k = k + 1;
        }
        proof {
            assert(new.take(k as int) =~= new);
        }
    }

    /// The state message of a server with this map: its code, `uuid`, and
    /// the topics in order, encoded.
    pub fn to_proto(&self, uuid: String) -> (r: Vec<u8>)
        ensures
            r@ == encode_state(StateView { message_type: 4, uuid: uuid@, topics: topics_of(self@) }),
    {
        let m = ServerStateMessage { message_type: 4, uuid, topics: self.get_all_topics() };
        m.encode()
    }
}

/// After `strip_with(only, p)` and the dropping of unused topics, a
/// subscriber holds a topic exactly when it held it before and `p` keeps it
/// there.
proof fn lemma_strip_membership(
    es: Seq<EntryView>,
    only: Option<Seq<char>>,
    p: spec_fn(Seq<char>) -> bool,
    t2: Seq<char>,
    w2: Seq<char>,
)
    ensures
        subscribed(drop_unused(es.map_values(strip_with(only, p))), t2, w2) <==> subscribed(es, t2, w2) && (
        match only {
            Some(t) => t2 == t ==> p(w2),
            None => p(w2),
        }),
{
    let f = strip_with(only, p);
    let m = es.map_values(f);
    let d = m.filter(in_use());
    let cond = match only {
        Some(t) => t2 == t ==> p(w2),
        None => p(w2),
    };
    if subscribed(d, t2, w2) {
        let e2 = choose|e: EntryView| d.contains(e) && e.0 == t2 && e.1.contains(w2);
        m.lemma_filter_contains_rev(in_use(), e2);
        let i = choose|i: int| 0 <= i < m.len() && m[i] == e2;
        let e = es[i];
        assert(e2 == f(e));
        let filtered = match only {
            Some(t) => e.0 == t,
            None => true,
        };
        if filtered {
            assert(e2.1 == e.1.filter(p));
            e.1.lemma_filter_contains_rev(p, w2);
            let k = choose|k: int| 0 <= k < e2.1.len() && e2.1[k] == w2;
            e.1.lemma_filter_pred(p, k);
        } else {
            assert(e2 == e);
        }
        assert(es.contains(e));
    }
    if subscribed(es, t2, w2) && cond {
        let e = choose|e: EntryView| es.contains(e) && e.0 == t2 && e.1.contains(w2);
        let i = choose|i: int| 0 <= i < es.len() && es[i] == e;
        let e2 = f(e);
        assert(m[i] == e2);
        let filtered = match only {
            Some(t) => e.0 == t,
            None => true,
        };
        if filtered {
            let k = choose|k: int| 0 <= k < e.1.len() && e.1[k] == w2;
            e.1.lemma_filter_contains(p, k);
        }
        assert(e2.1.contains(w2));
        assert(e2.1.len() > 0);
        m.lemma_filter_contains(in_use(), i);
        assert(d.contains(e2));
    }
}

/// After `push(t, w)`, a subscriber holds a topic exactly when it held it
/// before or it is `w` and the topic is `t`.
pub proof fn lemma_push_membership(es: Seq<EntryView>, t: Seq<char>, w: Seq<char>, t2: Seq<char>, w2: Seq<char>)
    ensures
        subscribed(push_spec(es, t, w), t2, w2) <==> subscribed(es, t2, w2) || (t2 == t && w2 == w),
{
    let r = push_spec(es, t, w);
    if topics_of(es).contains(t) {
        let f = |e: EntryView| if e.0 == t { (e.0, e.1.push(w)) } else { e };
        assert(r == es.map_values(f));
        if subscribed(r, t2, w2) {
            let e2 = choose|e: EntryView| r.contains(e) && e.0 == t2 && e.1.contains(w2);
            let i = choose|i: int| 0 <= i < r.len() && r[i] == e2;
            let e = es[i];
            assert(e2 == f(e));
            assert(e.0 == t2);
            assert(es.contains(e));
            if e.0 == t {
                let k = choose|k: int| 0 <= k < e2.1.len() && e2.1[k] == w2;
                assert(e2.1 == e.1.push(w));
                if k < e.1.len() {
                    assert(e.1[k] == w2);
                    assert(e.1.contains(w2));
                } else {
                    assert(w2 == w);
                }
            } else {
                assert(e2 == e);
            }
        }
        if subscribed(es, t2, w2) {
            let e = choose|e: EntryView| es.contains(e) && e.0 == t2 && e.1.contains(w2);
            let i = choose|i: int| 0 <= i < es.len() && es[i] == e;
            let k = choose|k: int| 0 <= k < e.1.len() && e.1[k] == w2;
            assert(r[i] == f(e));
            assert(r[i].0 == t2);
            assert(r[i].1[k] == w2);
            assert(r.contains(r[i]));
        }
        if t2 == t && w2 == w {
            let i = choose|i: int| 0 <= i < topics_of(es).len() && topics_of(es)[i] == t;
            assert(es[i].0 == t);
            assert(r[i] == f(es[i]));
            assert(r[i].1 == es[i].1.push(w));
            assert(r[i].1[es[i].1.len() as int] == w);
            assert(r.contains(r[i]));
        }
    } else {
        assert(r == es.push((t, seq![w])));
        if subscribed(r, t2, w2) {
            let e2 = choose|e: EntryView| r.contains(e) && e.0 == t2 && e.1.contains(w2);
            let i = choose|i: int| 0 <= i < r.len() && r[i] == e2;
            if i < es.len() {
                assert(es[i] == e2);
                assert(es.contains(es[i]));
            } else {
                assert(e2 == (t, seq![w]));
                let k = choose|k: int| 0 <= k < e2.1.len() && e2.1[k] == w2;
                assert(w2 == w);
            }
        }
        if subscribed(es, t2, w2) {
            let e = choose|e: EntryView| es.contains(e) && e.0 == t2 && e.1.contains(w2);
            let i = choose|i: int| 0 <= i < es.len() && es[i] == e;
            assert(r[i] == e);
            assert(r.contains(r[i]));
        }
        if t2 == t && w2 == w {
            assert(r[es.len() as int] == (t, seq![w]));
            assert(seq![w][0] == w);
            assert(r.contains(r[es.len() as int]));
        }
    }
}

/// After `remove_subscriber_from_topic(t, w)`, a subscriber holds a topic
/// exactly when it held it before and is not `w` on `t`.
pub proof fn lemma_remove_from_topic_membership(es: Seq<EntryView>, t: Seq<char>, w: Seq<char>, t2: Seq<char>, w2: Seq<char>)
    ensures
        subscribed(remove_from_topic_spec(es, t, w), t2, w2) <==> subscribed(es, t2, w2) && !(t2 == t && w2 == w),
{
    lemma_strip_membership(es, Some(t), differs_from(w), t2, w2);
}

/// After `remove_subscriber(w)`, `w` holds no topic and every other
/// subscriber holds what it held.
pub proof fn lemma_remove_everywhere_membership(es: Seq<EntryView>, w: Seq<char>, t2: Seq<char>, w2: Seq<char>)
    ensures
        subscribed(remove_everywhere_spec(es, w), t2, w2) <==> subscribed(es, t2, w2) && w2 != w,
{
    lemma_strip_membership(es, None, differs_from(w), t2, w2);
}

/// After `prune_failed(t, failed)`, a subscriber holds a topic exactly when
/// it held it before and did not fail on `t`.
pub proof fn lemma_prune_membership(es: Seq<EntryView>, t: Seq<char>, failed: Seq<Seq<char>>, t2: Seq<char>, w2: Seq<char>)
    ensures
        subscribed(prune_spec(es, t, failed), t2, w2) <==> subscribed(es, t2, w2) && !(t2 == t && failed.contains(w2)),
{
    lemma_strip_membership(es, Some(t), outside_of(failed), t2, w2);
}

proof fn lemma_remove_each_membership(es: Seq<EntryView>, ts: Seq<Seq<char>>, w: Seq<char>, t2: Seq<char>, w2: Seq<char>)
    ensures
        subscribed(remove_each(es, ts, w), t2, w2) <==> subscribed(es, t2, w2) && !(ts.contains(t2) && w2 == w),
    decreases ts.len(),
{
    if ts.len() > 0 {
        lemma_remove_each_membership(es, ts.drop_last(), w, t2, w2);
        lemma_remove_from_topic_membership(remove_each(es, ts.drop_last(), w), ts.last(), w, t2, w2);
        if ts.contains(t2) && ts.last() != t2 {
            let k = choose|k: int| 0 <= k < ts.len() && ts[k] == t2;
            assert(ts.drop_last()[k] == t2);
        }
        if ts.drop_last().contains(t2) {
            let k = choose|k: int| 0 <= k < ts.drop_last().len() && ts.drop_last()[k] == t2;
            assert(ts[k] == t2);
        }
        assert(ts[ts.len() - 1] == ts.last());
    }
}

proof fn lemma_push_each_membership(es: Seq<EntryView>, ts: Seq<Seq<char>>, w: Seq<char>, t2: Seq<char>, w2: Seq<char>)
    ensures
        subscribed(push_each(es, ts, w), t2, w2) <==> subscribed(es, t2, w2) || (ts.contains(t2) && w2 == w),
    decreases ts.len(),
{
    if ts.len() > 0 {
        lemma_push_each_membership(es, ts.drop_last(), w, t2, w2);
        lemma_push_membership(push_each(es, ts.drop_last(), w), ts.last(), w, t2, w2);
        if ts.contains(t2) && ts.last() != t2 {
            let k = choose|k: int| 0 <= k < ts.len() && ts[k] == t2;
            assert(ts.drop_last()[k] == t2);
        }
        if ts.drop_last().contains(t2) {
            let k = choose|k: int| 0 <= k < ts.drop_last().len() && ts.drop_last()[k] == t2;
            assert(ts[k] == t2);
        }
        assert(ts[ts.len() - 1] == ts.last());
    }
}

proof fn lemma_subscribed_topics(es: Seq<EntryView>, w: Seq<char>, t2: Seq<char>)
    ensures
        subscribed_topics(es, w).contains(t2) <==> subscribed(es, t2, w),
{
    let f = es.filter(has_subscriber(w));
    if subscribed_topics(es, w).contains(t2) {
        let k = choose|k: int| 0 <= k < f.len() && topics_of(f)[k] == t2;
        es.lemma_filter_pred(has_subscriber(w), k);
        assert(f.contains(f[k]));
        es.lemma_filter_contains_rev(has_subscriber(w), f[k]);
    }
    if subscribed(es, t2, w) {
        let e = choose|e: EntryView| es.contains(e) && e.0 == t2 && e.1.contains(w);
        let i = choose|i: int| 0 <= i < es.len() && es[i] == e;
        es.lemma_filter_contains(has_subscriber(w), i);
        let k = choose|k: int| 0 <= k < f.len() && f[k] == e;
        assert(topics_of(f)[k] == t2);
    }
}

/// After `update_topics_for_subscriber(w, new)`, `w` holds exactly the
/// topics that `new` names, and every other subscriber holds what it held.
pub proof fn lemma_update_membership(es: Seq<EntryView>, w: Seq<char>, new: Seq<Seq<char>>, t2: Seq<char>, w2: Seq<char>)
    ensures
        subscribed(update_spec(es, w, new), t2, w2) <==> if w2 == w {
            new.contains(t2)
        } else {
            subscribed(es, t2, w2)
        },
{
    let cur = subscribed_topics(es, w);
    let rm = cur.filter(outside_of(new));
    let ad = new.filter(outside_of(cur));
    let mid = remove_each(es, rm, w);
    lemma_remove_each_membership(es, rm, w, t2, w2);
    lemma_push_each_membership(mid, ad, w, t2, w2);
    lemma_subscribed_topics(es, w, t2);
    if rm.contains(t2) {
        let k = choose|k: int| 0 <= k < rm.len() && rm[k] == t2;
        cur.lemma_filter_pred(outside_of(new), k);
        assert(rm.contains(rm[k]));
        cur.lemma_filter_contains_rev(outside_of(new), rm[k]);
    } else if cur.contains(t2) && !new.contains(t2) {
        let k = choose|k: int| 0 <= k < cur.len() && cur[k] == t2;
        cur.lemma_filter_contains(outside_of(new), k);
    }
    if ad.contains(t2) {
        let k = choose|k: int| 0 <= k < ad.len() && ad[k] == t2;
        new.lemma_filter_pred(outside_of(cur), k);
        assert(ad.contains(ad[k]));
        new.lemma_filter_contains_rev(outside_of(cur), ad[k]);
    } else if new.contains(t2) && !cur.contains(t2) {
        let k = choose|k: int| 0 <= k < new.len() && new[k] == t2;
        new.lemma_filter_contains(outside_of(cur), k);
    }
}

impl TopicsMap {
    /// Every subscriber once: the ids that some topic holds, without repeats.
    pub fn get_all_unique_websocks(&self) -> (r: Vec<String>)
        ensures
            distinct(texts(r@)),
            forall|x: Seq<char>| #[trigger] texts(r@).contains(x) <==> exists|j: int|
                0 <= j < self@.len() && (#[trigger] self@[j]).1.contains(x),
    {
        let ghost es = self@;
        let mut out: Vec<String> = Vec::new();
        let mut i: usize = 0;
        while i < self.topic_map.len()
            invariant
                i <= self.topic_map@.len(),
                es == self@,
                distinct(texts(out@)),
                forall|x: Seq<char>| #[trigger] texts(out@).contains(x) <==> exists|j: int|
                    0 <= j < i && (#[trigger] es[j]).1.contains(x),
            decreases self.topic_map@.len() - i,
        {
            let subs = &self.topic_map[i].subscribers;
            assert(texts(subs@) == es[i as int].1);
            let mut k: usize = 0;
            while k < subs.len()
                invariant
                    i < self.topic_map@.len(),
                    k <= subs@.len(),
                    es == self@,
                    texts(subs@) == es[i as int].1,
                    distinct(texts(out@)),
                    forall|x: Seq<char>| #[trigger] texts(out@).contains(x) <==> (exists|j: int|
                        0 <= j < i && (#[trigger] es[j]).1.contains(x)) || es[i as int].1.take(k as int).contains(x),
                decreases subs@.len() - k,
            {
                let ghost x0 = subs@[k as int]@;
                proof {
                    assert(es[i as int].1[k as int] == x0);
                    assert(es[i as int].1.take(k + 1) =~= es[i as int].1.take(k as int).push(x0));
                }
                if !texts_contain(&out, &subs[k]) {
                    let ghost before = texts(out@);
                    out.push(subs[k].clone());
                    proof {
                        assert(texts(out@) =~= before.push(x0));
                        assert forall|x: Seq<char>| #[trigger] texts(out@).contains(x) <==> before.contains(x) || x == x0 by {
                            if texts(out@).contains(x) && x != x0 {
                                let m = choose|m: int| 0 <= m < texts(out@).len() && texts(out@)[m] == x;
                                assert(before[m] == x);
                            }
                            if before.contains(x) {
                                let m = choose|m: int| 0 <= m < before.len() && before[m] == x;
                                assert(texts(out@)[m] == x);
                            }
                            if x == x0 {
                                assert(texts(out@)[before.len() as int] == x0);
                            }
                        }
                    }
                }
                proof {
                    assert forall|x: Seq<char>| es[i as int].1.take(k + 1).contains(x) <==> es[i as int].1.take(k as int).contains(x) || x == x0 by {
                        let a = es[i as int].1.take(k as int);
                        let b = es[i as int].1.take(k + 1);
                        if b.contains(x) && x != x0 {
                            let m = choose|m: int| 0 <= m < b.len() && b[m] == x;
                            assert(a[m] == x);
                        }
                        if a.contains(x) {
                            let m = choose|m: int| 0 <= m < a.len() && a[m] == x;
                            assert(b[m] == x);
                        }
                        if x == x0 {
                            assert(b[k as int] == x0);
                        }
                    }
                }
                k = k + 1;
            }
            proof {
                assert(es[i as int].1.take(k as int) =~= es[i as int].1);
                assert forall|x: Seq<char>| #[trigger] texts(out@).contains(x) <==> exists|j: int|
                    0 <= j < i + 1 && (#[trigger] es[j]).1.contains(x) by {
                    if es[i as int].1.contains(x) {
                        assert(0 <= i < i + 1);
                    }
                    if exists|j: int| 0 <= j < i + 1 && (#[trigger] es[j]).1.contains(x) {
                        let j = choose|j: int| 0 <= j < i + 1 && (#[trigger] es[j]).1.contains(x);
                        if j < i {
                            assert(exists|j: int| 0 <= j < i && (#[trigger] es[j]).1.contains(x));
                        }
                    }
                }
            }
            i = i + 1;
        }
        out
    }
}

/// After every operation that drops unused topics, every topic has a
/// subscriber.
pub proof fn lemma_drop_unused_in_use(es: Seq<EntryView>)
    ensures
        no_unused_topics(drop_unused(es)),
{
    let d = drop_unused(es);
    assert forall|i: int| 0 <= i < d.len() implies (#[trigger] d[i]).1.len() > 0 by {
        es.lemma_filter_pred(in_use(), i);
    }
}

/// `push` keeps every topic in use.
pub proof fn lemma_push_in_use(es: Seq<EntryView>, t: Seq<char>, w: Seq<char>)
    requires
        no_unused_topics(es),
    ensures
        no_unused_topics(push_spec(es, t, w)),
{
}

/// A well-formed map holds no topic without subscribers: each topic it
/// lists has at least one.
pub proof fn lemma_listed_topics_in_use(m: &TopicsMap, t: Seq<char>)
    requires
        m.wf(),
        topics_of(m@).contains(t),
    ensures
        subscribers_in(m@, t).len() >= 1,
{
    let k = topics_of(m@).index_of(t);
    assert(0 <= k < m@.len());
    assert(m@[k].1.len() > 0);
}

} // verus!
