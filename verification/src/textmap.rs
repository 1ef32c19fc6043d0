//! Maps from text to text, kept in the order of their keys.

use vstd::prelude::*;
use crate::text;
use crate::text::less_text;

verus! {

/// The keys of a list of pairs come in strictly ascending order.
pub open spec fn ascending(pairs: Seq<(Seq<char>, Seq<char>)>) -> bool {
    forall|i: int, j: int|
        0 <= i < j < pairs.len() ==> text::text_less(#[trigger] pairs[i].0, #[trigger] pairs[j].0)
}

/// The map that a list of pairs stands for.
pub open spec fn map_of(pairs: Seq<(Seq<char>, Seq<char>)>) -> Map<Seq<char>, Seq<char>> {
    Map::new(
        |k: Seq<char>| exists|i: int| 0 <= i < pairs.len() && (#[trigger] pairs[i]).0 == k,
        |k: Seq<char>|
            pairs[choose|i: int| 0 <= i < pairs.len() && (#[trigger] pairs[i]).0 == k].1,
    )
}

/// Under ascending keys each pair is what the map holds at its key.
pub proof fn lemma_map_of(pairs: Seq<(Seq<char>, Seq<char>)>, i: int)
    requires
        ascending(pairs),
        0 <= i < pairs.len(),
    ensures
        map_of(pairs).contains_pair(pairs[i].0, pairs[i].1),
{
    let k = pairs[i].0;
    let j = choose|j: int| 0 <= j < pairs.len() && (#[trigger] pairs[j]).0 == k;
    assert(pairs[i].0 == k);
    text::lemma_text_order(pairs[i].0, pairs[j].0);
    assert(i == j);
}

/// A map from text to text.
#[derive(Debug, PartialEq, Eq)]
pub struct TextMap {
    pairs: Vec<(String, String)>,
}

impl View for TextMap {
    type V = Map<Seq<char>, Seq<char>>;

    closed spec fn view(&self) -> Map<Seq<char>, Seq<char>> {
        map_of(self.pairs.deep_view())
    }
}

impl DeepView for TextMap {
    type V = Map<Seq<char>, Seq<char>>;

    open spec fn deep_view(&self) -> Map<Seq<char>, Seq<char>> {
        self@
    }
}

impl TextMap {
    #[verifier::type_invariant]
    spec fn well_formed(self) -> bool {
        ascending(self.pairs.deep_view())
    }

    /// No entries.
    pub fn new() -> (m: TextMap)
        ensures
            m@ == Map::<Seq<char>, Seq<char>>::empty(),
    {
        let m = TextMap { pairs: Vec::new() };
        assert(m@ =~= Map::<Seq<char>, Seq<char>>::empty());
        m
    }

    /// The number of pairs that come before `key`.
    fn position(&self, key: &str) -> (i: usize)
        ensures
            i <= self.pairs.len(),
            forall|j: int|
                0 <= j < i ==> text::text_less(#[trigger] self.pairs.deep_view()[j].0, key@),
            forall|j: int|
                i <= j < self.pairs.len() ==> !text::text_less(
                    #[trigger] self.pairs.deep_view()[j].0,
                    key@,
                ),
    {
        proof {
            use_type_invariant(self);
        }
        let mut i: usize = 0;
        while i < self.pairs.len() && less_text(self.pairs[i].0.as_str(), key)
            invariant
                i <= self.pairs.len(),
                forall|j: int|
                    0 <= j < i ==> text::text_less(#[trigger] self.pairs.deep_view()[j].0, key@),
            decreases self.pairs.len() - i,
        {
            assert(self.pairs.deep_view()[i as int].0 == self.pairs@[i as int].0@);
            i += 1;
        }
        let ghost p = self.pairs.deep_view();
        assert forall|j: int| i <= j < self.pairs.len() implies !text::text_less(
            #[trigger] p[j].0,
            key@,
        ) by {
            assert(p[i as int].0 == self.pairs@[i as int].0@);
            text::lemma_text_order_transitive(p[i as int].0, p[j].0, key@);
        }
        i
    }

    /// What the map holds at `key`.
    pub fn get(&self, key: &str) -> (r: Option<&String>)
        ensures
            match r {
                Some(v) => self@.contains_pair(key@, v@),
                None => !self@.contains_key(key@),
            },
    {
        proof {
            use_type_invariant(self);
        }
        let i = self.position(key);
        let ghost p = self.pairs.deep_view();
        if i < self.pairs.len() && !less_text(key, self.pairs[i].0.as_str()) {
            proof {
                text::lemma_text_order(p[i as int].0, key@);
                lemma_map_of(p, i as int);
            }
            return Some(&self.pairs[i].1);
        }
        proof {
            if self@.contains_key(key@) {
                let j = choose|j: int| 0 <= j < p.len() && (#[trigger] p[j]).0 == key@;
                text::lemma_text_order(p[j].0, key@);
                if i < p.len() {
                    text::lemma_text_order(p[i as int].0, key@);
                }
            }
        }
        None
    }

    /// Puts `value` at `key`, in place of what was there.
    pub fn insert(&mut self, key: String, value: String)
        ensures
            final(self)@ == old(self)@.insert(key@, value@),
    {
        let ghost k = key@;
        let ghost v = value@;
        let ghost p = self.pairs.deep_view();
        proof {
            use_type_invariant(&*self);
        }
        let i = self.position(key.as_str());
        let mut pairs: Vec<(String, String)> = Vec::new();
        std::mem::swap(&mut pairs, &mut self.pairs);
        assert(pairs.deep_view() == p);
        if i < pairs.len() && !less_text(key.as_str(), pairs[i].0.as_str()) {
            proof {
                text::lemma_text_order(p[i as int].0, k);
            }
            pairs.set(i, (key, value));
            let ghost q = pairs.deep_view();
            assert(q =~= p.update(i as int, (k, v)));
            assert(ascending(q)) by {
                assert forall|a: int, b: int| 0 <= a < b < q.len() implies text::text_less(
                    #[trigger] q[a].0,
                    #[trigger] q[b].0,
                ) by {
                    assert(q[a].0 == p[a].0 && q[b].0 == p[b].0);
                }
            }
            proof {
                lemma_inserted(p, q, i as int, k, v);
            }
        } else {
            pairs.insert(i, (key, value));
            let ghost q = pairs.deep_view();
            assert(q =~= p.insert(i as int, (k, v)));
            assert(ascending(q)) by {
                assert forall|a: int, b: int| 0 <= a < b < q.len() implies text::text_less(
                    #[trigger] q[a].0,
                    #[trigger] q[b].0,
                ) by {
                    if a < i && b > i {
                        assert(q[a] == p[a] && q[b] == p[b - 1]);
                    } else if a < i && b < i {
                        assert(q[a] == p[a] && q[b] == p[b]);
                    } else if a < i {
                        assert(q[a] == p[a]);
                    } else if a > i {
                        assert(q[a] == p[a - 1] && q[b] == p[b - 1]);
                    } else {
                        assert(q[b] == p[b - 1]);
                        text::lemma_text_order(p[b - 1].0, k);
                        text::lemma_text_order(p[i as int].0, k);
                        if b - 1 > i {
                            text::lemma_text_order_transitive(k, p[i as int].0, p[b - 1].0);
                        }
                    }
                }
            }
            proof {
                lemma_inserted(p, q, i as int, k, v);
            }
        }
        self.pairs = pairs;
    }

    /// The pairs in the order of their keys.
    pub fn pairs(&self) -> (r: &Vec<(String, String)>)
        ensures
            ascending(r.deep_view()),
            self@ == map_of(r.deep_view()),
    {
        proof {
            use_type_invariant(self);
        }
        &self.pairs
    }

    /// The map that a list of pairs stands for, where a later pair replaces an
    /// earlier one with the same key.
    pub fn from_pairs(list: Vec<(String, String)>) -> (m: TextMap)
        ensures
            m@ == collected(list.deep_view()),
    {
        let mut m = TextMap::new();
        let mut i: usize = 0;
        let ghost all = list.deep_view();
        while i < list.len()
            invariant
                i <= list.len(),
                all == list.deep_view(),
                m@ == collected(all.take(i as int)),
            decreases list.len() - i,
        {
            assert(all.take(i + 1).drop_last() =~= all.take(i as int));
            assert(all.take(i + 1).last() == list@[i as int].deep_view());
            m.insert(list[i].0.clone(), list[i].1.clone());
            i += 1;
        }
        assert(all.take(i as int) =~= all);
        m
    }
}

/// Pairs put into a map one after the other.
pub open spec fn collected(pairs: Seq<(Seq<char>, Seq<char>)>) -> Map<Seq<char>, Seq<char>>
    decreases pairs.len(),
{
    if pairs.len() == 0 {
        Map::empty()
    } else {
        collected(pairs.drop_last()).insert(pairs.last().0, pairs.last().1)
    }
}

/// Pairs with ascending keys stand for the same map either way.
pub proof fn lemma_collected(pairs: Seq<(Seq<char>, Seq<char>)>)
    requires
        ascending(pairs),
    ensures
        collected(pairs) == map_of(pairs),
    decreases pairs.len(),
{
    if pairs.len() == 0 {
        assert(map_of(pairs) =~= Map::empty());
    } else {
        let p = pairs.drop_last();
        let n = p.len() as int;
        assert forall|a: int, b: int| 0 <= a < b < p.len() implies text::text_less(
            #[trigger] p[a].0,
            #[trigger] p[b].0,
        ) by {
            assert(p[a] == pairs[a] && p[b] == pairs[b]);
        }
        lemma_collected(p);
        assert(pairs =~= p.insert(n, pairs.last()));
        lemma_inserted(p, pairs, n, pairs.last().0, pairs.last().1);
    }
}

proof fn lemma_inserted(
    p: Seq<(Seq<char>, Seq<char>)>,
    q: Seq<(Seq<char>, Seq<char>)>,
    i: int,
    k: Seq<char>,
    v: Seq<char>,
)
    requires
        ascending(p),
        ascending(q),
        0 <= i <= p.len(),
        q == p.insert(i, (k, v)) || (i < p.len() && p[i].0 == k && q == p.update(i, (k, v))),
    ensures
        map_of(q) == map_of(p).insert(k, v),
{
    let m = map_of(p);
    let n = map_of(q);
    assert(q[i] == (k, v));
    lemma_map_of(q, i);
    assert forall|x: Seq<char>| x != k implies (#[trigger] n.dom().contains(x)
        == m.dom().contains(x) && (m.dom().contains(x) ==> n[x] == m[x])) by {
        if m.contains_key(x) {
            let j = choose|j: int| 0 <= j < p.len() && (#[trigger] p[j]).0 == x;
            let jj = if q.len() == p.len() || j < i {
                j
            } else {
                j + 1
            };
            assert(q[jj] == p[j]);
            lemma_map_of(p, j);
            lemma_map_of(q, jj);
        }
        if n.contains_key(x) {
            let j = choose|j: int| 0 <= j < q.len() && (#[trigger] q[j]).0 == x;
            assert(j != i);
            let jj = if q.len() == p.len() || j < i {
                j
            } else {
                j - 1
            };
            assert(q[j] == p[jj]);
            lemma_map_of(p, jj);
        }
    }
    assert(n.dom() =~= m.insert(k, v).dom());
    assert(n =~= m.insert(k, v));
}

/// Pairs put into a map one after the other leave each key with the value of its last
/// pair.
pub proof fn law_the_last_pair_of_a_key_counts(pairs: Seq<(Seq<char>, Seq<char>)>, i: int)
    requires
        0 <= i < pairs.len(),
        forall|j: int| i < j < pairs.len() ==> (#[trigger] pairs[j]).0 != pairs[i].0,
    ensures
        collected(pairs).contains_pair(pairs[i].0, pairs[i].1),
    decreases pairs.len(),
{
    let p = pairs.drop_last();
    let n = p.len() as int;
    if i < n {
        assert forall|j: int| i < j < p.len() implies (#[trigger] p[j]).0 != p[i].0 by {
            assert(p[j] == pairs[j]);
        }
        law_the_last_pair_of_a_key_counts(p, i);
        assert(pairs[n].0 != pairs[i].0);
    }
}

/// Pairs put into a map leave no key that none of them has.
pub proof fn law_no_other_key_is_there(pairs: Seq<(Seq<char>, Seq<char>)>, key: Seq<char>)
    requires
        forall|i: int| 0 <= i < pairs.len() ==> (#[trigger] pairs[i]).0 != key,
    ensures
        !collected(pairs).dom().contains(key),
    decreases pairs.len(),
{
    if pairs.len() > 0 {
        let p = pairs.drop_last();
        assert forall|i: int| 0 <= i < p.len() implies (#[trigger] p[i]).0 != key by {
            assert(p[i] == pairs[i]);
        }
        law_no_other_key_is_there(p, key);
        assert(pairs[pairs.len() - 1].0 != key);
    }
}

} // verus!
