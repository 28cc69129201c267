//! Lists of texts and facts about filtering lists.

use vstd::prelude::*;

verus! {

/// Texts as plain values.
pub open spec fn texts(v: Seq<String>) -> Seq<Seq<char>> {
    v.map_values(|s: String| s@)
}

/// Keeps what differs from `w`.
pub open spec fn differs_from(w: Seq<char>) -> spec_fn(Seq<char>) -> bool {
    |x: Seq<char>| x != w
}

/// Keeps what `ws` does not hold.
pub open spec fn outside_of(ws: Seq<Seq<char>>) -> spec_fn(Seq<char>) -> bool {
    |x: Seq<char>| !ws.contains(x)
}

/// No value occurs twice.
pub open spec fn distinct<A>(s: Seq<A>) -> bool {
    forall|i: int, j: int| 0 <= i < s.len() && 0 <= j < s.len() && i != j ==> s[i] != s[j]
}

/// Filtering one more element of a list.
pub proof fn lemma_filter_take<A>(s: Seq<A>, p: spec_fn(A) -> bool, i: int)
    requires
        0 <= i < s.len(),
    ensures
        s.take(i + 1).filter(p) == if p(s[i]) {
            s.take(i).filter(p).push(s[i])
        } else {
            s.take(i).filter(p)
        },
{
    reveal(Seq::filter);
    assert(s.take(i + 1).drop_last() =~= s.take(i));
}

/// Whether a list of texts holds a text.
pub fn texts_contain(v: &Vec<String>, s: &String) -> (r: bool)
    ensures
        r == texts(v@).contains(s@),
{
    let mut i: usize = 0;
    while i < v.len()
        invariant
            i <= v@.len(),
            forall|j: int| 0 <= j < i ==> v@[j]@ != s@,
        decreases v@.len() - i,
    {
        if v[i] == *s {
            assert(texts(v@)[i as int] == s@);
            return true;
        }
        i = i + 1;
    }
    proof {
        if texts(v@).contains(s@) {
            let k = choose|k: int| 0 <= k < texts(v@).len() && texts(v@)[k] == s@;
            assert(v@[k]@ == s@);
        }
    }
    false
}

/// A copy of a list of texts.
pub fn copy_texts(v: &Vec<String>) -> (r: Vec<String>)
    ensures
        r@ == v@,
{
    let mut out: Vec<String> = Vec::new();
    let mut i: usize = 0;
    while i < v.len()
        invariant
            i <= v@.len(),
            out@ == v@.take(i as int),
        decreases v@.len() - i,
    {
        out.push(v[i].clone());
        proof {
            assert(v@.take(i + 1) =~= v@.take(i as int).push(v@[i as int]));
        }
        i = i + 1;
    }
    proof {
        assert(v@.take(i as int) =~= v@);
    }
    out
}

/// The texts of a list that `keep` accepts, where `keep` is "differs from
/// `w`" when `others` is `None`, and "not among `others`" otherwise.
fn texts_filtered(v: &Vec<String>, w: &String, others: Option<&Vec<String>>) -> (r: Vec<String>)
    ensures
        texts(r@) == texts(v@).filter(match others {
            None => differs_from(w@),
            Some(o) => outside_of(texts(o@)),
        }),
{
    let ghost p = match others {
        None => differs_from(w@),
        Some(o) => outside_of(texts(o@)),
    };
    let ghost t = texts(v@);
    let mut out: Vec<String> = Vec::new();
    let mut i: usize = 0;
    proof {
        reveal(Seq::filter);
        assert(t.take(0) =~= Seq::<Seq<char>>::empty());
        assert(texts(out@) =~= t.take(0).filter(p));
    }
    while i < v.len()
        invariant
            i <= v@.len(),
            t == texts(v@),
            p == match others {
                None => differs_from(w@),
                Some(o) => outside_of(texts(o@)),
            },
            texts(out@) == t.take(i as int).filter(p),
        decreases v@.len() - i,
    {
        let keep = match others {
            None => !(v[i] == *w),
            Some(o) => !texts_contain(o, &v[i]),
        };
        proof {
            lemma_filter_take(t, p, i as int);
            assert(t[i as int] == v@[i as int]@);
        }
        if keep {
            let ghost before = out@;
            out.push(v[i].clone());
            proof {
                assert(texts(out@) =~= texts(before).push(v@[i as int]@));
            }
        }
        i = i + 1;
    }
    proof {
        assert(t.take(i as int) =~= t);
    }
    out
}

/// The texts of a list that differ from `w`.
pub fn texts_without(v: &Vec<String>, w: &String) -> (r: Vec<String>)
    ensures
        texts(r@) == texts(v@).filter(differs_from(w@)),
{
    texts_filtered(v, w, None)
}

/// The texts of a list that `others` does not hold.
pub fn texts_without_any(v: &Vec<String>, others: &Vec<String>) -> (r: Vec<String>)
    ensures
        texts(r@) == texts(v@).filter(outside_of(texts(others@))),
{
    let empty = String::new();
    texts_filtered(v, &empty, Some(others))
}

} // verus!
