//! Key/value snapshots of a document's leaves (dotted key to value text),
//! kept in key order, and plain key sets.

use vstd::prelude::*;

use crate::keys::{
    compare_keys, key_lt, lemma_key_lt_asymmetric, lemma_key_lt_irreflexive,
    lemma_key_lt_total, lemma_key_lt_transitive, KeyOrder,
};

verus! {

/// Entries as character sequences.
pub open spec fn pairs_view(v: Seq<(String, String)>) -> Seq<(Seq<char>, Seq<char>)> {
    v.map_values(|e: (String, String)| (e.0@, e.1@))
}

/// Keys strictly increasing.
pub open spec fn sorted_keys(p: Seq<(Seq<char>, Seq<char>)>) -> bool {
    forall|i: int, j: int| 0 <= i < j < p.len() ==> key_lt(#[trigger] p[i].0, #[trigger] p[j].0)
}

/// Index of the entry with key `k`, when there is one.
pub open spec fn has_key_at(p: Seq<(Seq<char>, Seq<char>)>, k: Seq<char>, i: int) -> bool {
    0 <= i < p.len() && p[i].0 == k
}

/// The map an entry sequence with distinct keys denotes.
pub open spec fn pairs_map(p: Seq<(Seq<char>, Seq<char>)>) -> Map<Seq<char>, Seq<char>> {
    Map::new(
        |k: Seq<char>| exists|i: int| has_key_at(p, k, i),
        |k: Seq<char>| p[choose|i: int| has_key_at(p, k, i)].1,
    )
}

/// Keys sorted: each key occurs at exactly one index.
pub proof fn lemma_sorted_unique(p: Seq<(Seq<char>, Seq<char>)>, i: int, j: int)
    requires
        sorted_keys(p),
        0 <= i < p.len(),
        0 <= j < p.len(),
        p[i].0 == p[j].0,
    ensures
        i == j,
{
    if i < j {
        lemma_key_lt_irreflexive(p[i].0);
    } else if j < i {
        lemma_key_lt_irreflexive(p[i].0);
    }
}

pub proof fn lemma_pairs_map_at(p: Seq<(Seq<char>, Seq<char>)>, i: int)
    requires
        sorted_keys(p),
        0 <= i < p.len(),
    ensures
        pairs_map(p).contains_key(p[i].0),
        pairs_map(p)[p[i].0] == p[i].1,
{
    assert(has_key_at(p, p[i].0, i));
    let j = choose|j: int| has_key_at(p, p[i].0, j);
    lemma_sorted_unique(p, i, j);
}

/// A key/value snapshot, iterated in key order.
pub struct ValueMap {
    entries: Vec<(String, String)>,
}

impl ValueMap {
    #[verifier::type_invariant]
    pub closed spec fn inv(self) -> bool {
        sorted_keys(pairs_view(self.entries@))
    }

    /// The entries in key order.
    pub closed spec fn pairs(self) -> Seq<(Seq<char>, Seq<char>)> {
        pairs_view(self.entries@)
    }

    pub proof fn lemma_view(self)
        requires
            self.inv(),
        ensures
            sorted_keys(self.pairs()),
            self@ == pairs_map(self.pairs()),
            forall|i: int|
                #![trigger self.pairs()[i]]
                0 <= i < self.pairs().len() ==> self@.contains_key(self.pairs()[i].0)
                    && self@[self.pairs()[i].0] == self.pairs()[i].1,
            forall|k: Seq<char>|
                #[trigger] self@.contains_key(k) ==> exists|i: int| has_key_at(self.pairs(), k, i),
    {
        assert forall|i: int|
            #![trigger self.pairs()[i]]
            0 <= i < self.pairs().len() implies self@.contains_key(self.pairs()[i].0)
                && self@[self.pairs()[i].0] == self.pairs()[i].1 by {
            lemma_pairs_map_at(self.pairs(), i);
        }
    }

    pub fn new() -> (m: ValueMap)
        ensures
            m@ == Map::<Seq<char>, Seq<char>>::empty(),
            m.pairs().len() == 0,
    {
        let m = ValueMap { entries: Vec::new() };
        assert(m@ =~= Map::<Seq<char>, Seq<char>>::empty());
        m
    }

    pub fn len(&self) -> (n: usize)
        ensures
            n == self.pairs().len(),
            n == self@.len(),
    {
        proof {
            use_type_invariant(self);
            self.lemma_len();
        }
        self.entries.len()
    }

    pub proof fn lemma_len(self)
        requires
            self.inv(),
        ensures
            self@.dom().finite(),
            self@.len() == self.pairs().len(),
    {
        let p = self.pairs();
        let keys = p.map_values(|e: (Seq<char>, Seq<char>)| e.0);
        assert forall|i: int, j: int| 0 <= i < j < keys.len() implies keys[i] != keys[j] by {
            lemma_key_lt_irreflexive(p[i].0);
            assert(key_lt(p[i].0, p[j].0));
        }
        assert(keys.no_duplicates());
        assert(self@.dom() =~= keys.to_set()) by {
            assert forall|k: Seq<char>| self@.dom().contains(k) implies keys.to_set().contains(k) by {
                let i = choose|i: int| has_key_at(p, k, i);
                assert(keys[i] == k);
            }
            assert forall|k: Seq<char>| keys.to_set().contains(k) implies self@.dom().contains(k) by {
                let i = choose|i: int| 0 <= i < keys.len() && keys[i] == k;
                assert(has_key_at(p, k, i));
            }
        }
        keys.unique_seq_to_set();
    }

    /// Where `key` is or would go: the first entry not before it.
    fn position(&self, key: &str) -> (r: (usize, bool))
        ensures
            r.0 <= self.pairs().len(),
            forall|i: int| 0 <= i < r.0 ==> key_lt(#[trigger] self.pairs()[i].0, key@),
            r.0 < self.pairs().len() ==> !key_lt(self.pairs()[r.0 as int].0, key@),
            r.1 <==> r.0 < self.pairs().len() && self.pairs()[r.0 as int].0 == key@,
            !r.1 ==> forall|i: int| r.0 <= i < self.pairs().len() ==> key_lt(
                key@,
                #[trigger] self.pairs()[i].0,
            ),
    {
        proof {
            use_type_invariant(self);
        }
        let mut i: usize = 0;
        while i < self.entries.len()
            invariant
                self.inv(),
                i <= self.entries.len(),
                forall|m: int| 0 <= m < i ==> key_lt(#[trigger] self.pairs()[m].0, key@),
            decreases self.entries.len() - i,
        {
            match compare_keys(self.entries[i].0.as_str(), key) {
                KeyOrder::Before => {
                    i = i + 1;
                },
                KeyOrder::Same => {
                    return (i, true);
                },
                KeyOrder::After => {
                    proof {
                        let p = self.pairs();
                        lemma_key_lt_asymmetric(key@, p[i as int].0);
                        assert forall|m: int| i <= m < p.len() implies key_lt(key@, #[trigger] p[m].0) by {
                            if m > i {
                                lemma_key_lt_transitive(key@, p[i as int].0, p[m].0);
                            }
                        }
                        lemma_key_lt_irreflexive(key@);
                    }
                    return (i, false);
                },
            }
        }
        (i, false)
    }

    /// The value of `key`.
    pub fn get(&self, key: &str) -> (r: Option<&String>)
        ensures
            r is Some <==> self@.contains_key(key@),
            r matches Some(v) ==> v@ == self@[key@],
    {
        proof {
            use_type_invariant(self);
            self.lemma_view();
        }
        let (i, found) = self.position(key);
        if found {
            Some(&self.entries[i].1)
        } else {
            proof {
                if self@.contains_key(key@) {
                    let j = choose|j: int| has_key_at(self.pairs(), key@, j);
                    if j < i {
                        lemma_key_lt_irreflexive(key@);
                    } else {
                        lemma_key_lt_irreflexive(key@);
                    }
                }
            }
            None
        }
    }

    pub fn contains_key(&self, key: &str) -> (b: bool)
        ensures
            b == self@.contains_key(key@),
    {
        self.get(key).is_some()
    }

    /// Sets `key` to `value`.
    pub fn insert(&mut self, key: String, value: String)
        ensures
            final(self)@ == old(self)@.insert(key@, value@),
    {
        proof {
            use_type_invariant(&*self);
            self.lemma_view();
        }
        let (i, found) = self.position(key.as_str());
        let ghost old_pairs = self.pairs();
        let ghost k = key@;
        let ghost v = value@;
        if found {
            let mut entries = Vec::new();
            std::mem::swap(&mut entries, &mut self.entries);
            entries.set(i, (key, value));
            proof {
                let p = pairs_view(entries@);
                assert(p =~= old_pairs.update(i as int, (k, v)));
                assert(sorted_keys(p));
            }
            self.entries = entries;
        } else {
            let mut entries = Vec::new();
            std::mem::swap(&mut entries, &mut self.entries);
            entries.insert(i, (key, value));
            proof {
                let p = pairs_view(entries@);
                assert(p =~= old_pairs.insert(i as int, (k, v)));
                assert forall|a: int, b: int| 0 <= a < b < p.len() implies key_lt(
                    #[trigger] p[a].0,
                    #[trigger] p[b].0,
                ) by {
                    if b < i {
                    } else if a < i && b == i {
                    } else if a < i {
                        lemma_key_lt_transitive(p[a].0, k, p[b].0);
                    } else if a == i {
                    } else {
                        assert(p[a] == old_pairs[a - 1]);
                        assert(p[b] == old_pairs[b - 1]);
                    }
                }
            }
            self.entries = entries;
        }
        proof {
            use_type_invariant(&*self);
            self.lemma_view();
            let want = old(self)@.insert(k, v);
            assert forall|q: Seq<char>| #[trigger] self@.contains_key(q) == want.contains_key(q) by {
                if self@.contains_key(q) {
                    let j = choose|j: int| has_key_at(self.pairs(), q, j);
                    if q != k {
                        if found {
                            assert(has_key_at(old_pairs, q, j));
                        } else if j < i {
                            assert(has_key_at(old_pairs, q, j));
                        } else {
                            assert(has_key_at(old_pairs, q, j - 1));
                        }
                    }
                }
                if want.contains_key(q) && q != k {
                    let j = choose|j: int| has_key_at(old_pairs, q, j);
                    if found || j < i {
                        assert(has_key_at(self.pairs(), q, j));
                    } else {
                        assert(has_key_at(self.pairs(), q, j + 1));
                    }
                }
                if q == k {
                    assert(has_key_at(self.pairs(), q, i as int));
                }
            }
            assert forall|q: Seq<char>| #[trigger] self@.contains_key(q) implies self@[q] == want[q] by {
                let j = choose|j: int| has_key_at(self.pairs(), q, j);
                if q != k {
                    if found || j < i {
                        assert(has_key_at(old_pairs, q, j));
                        assert(old_pairs[j] == self.pairs()[j]);
                    } else {
                        assert(has_key_at(old_pairs, q, j - 1));
                        assert(old_pairs[j - 1] == self.pairs()[j]);
                    }
                } else {
                    lemma_sorted_unique(self.pairs(), j, i as int);
                }
            }
            assert(self@ =~= want);
        }
    }

    /// Drops `key`.
    pub fn remove(&mut self, key: &str)
        ensures
            final(self)@ == old(self)@.remove(key@),
    {
        proof {
            use_type_invariant(&*self);
            self.lemma_view();
        }
        let (i, found) = self.position(key);
        let ghost old_pairs = self.pairs();
        if found {
            let mut entries = Vec::new();
            std::mem::swap(&mut entries, &mut self.entries);
            entries.remove(i);
            proof {
                let p = pairs_view(entries@);
                assert(p =~= old_pairs.remove(i as int));
                assert forall|a: int, b: int| 0 <= a < b < p.len() implies key_lt(
                    #[trigger] p[a].0,
                    #[trigger] p[b].0,
                ) by {
                    if a < i && b >= i {
                        assert(p[b] == old_pairs[b + 1]);
                    } else if a >= i {
                        assert(p[a] == old_pairs[a + 1]);
                        assert(p[b] == old_pairs[b + 1]);
                    }
                }
            }
            self.entries = entries;
        }
        proof {
            use_type_invariant(&*self);
            self.lemma_view();
            let want = old(self)@.remove(key@);
            if !found {
                assert forall|q: Seq<char>| #[trigger] old(self)@.contains_key(q) implies q != key@ by {
                    let j = choose|j: int| has_key_at(old_pairs, q, j);
                    if j < i {
                        lemma_key_lt_irreflexive(key@);
                    } else {
                        lemma_key_lt_irreflexive(key@);
                    }
                }
                assert(self@ =~= want);
            } else {
                assert forall|q: Seq<char>| #[trigger] self@.contains_key(q) == want.contains_key(q) by {
                    if self@.contains_key(q) {
                        let j = choose|j: int| has_key_at(self.pairs(), q, j);
                        if j < i {
                            assert(has_key_at(old_pairs, q, j));
                            if q == key@ {
                                lemma_sorted_unique(old_pairs, j, i as int);
                            }
                        } else {
                            assert(has_key_at(old_pairs, q, j + 1));
                            if q == key@ {
                                lemma_sorted_unique(old_pairs, j + 1, i as int);
                            }
                        }
                    }
                    if want.contains_key(q) {
                        let j = choose|j: int| has_key_at(old_pairs, q, j);
                        if j < i {
                            assert(has_key_at(self.pairs(), q, j));
                        } else if j > i {
                            assert(has_key_at(self.pairs(), q, j - 1));
                        }
                    }
                }
                assert forall|q: Seq<char>| #[trigger] self@.contains_key(q) implies self@[q] == want[q] by {
                    let j = choose|j: int| has_key_at(self.pairs(), q, j);
                    if j < i {
                        assert(has_key_at(old_pairs, q, j));
                        assert(old_pairs[j] == self.pairs()[j]);
                    } else {
                        assert(has_key_at(old_pairs, q, j + 1));
                        assert(old_pairs[j + 1] == self.pairs()[j]);
                    }
                }
                assert(self@ =~= want);
            }
        }
    }

    /// A copy of the entries, in key order.
    pub fn entries_clone(&self) -> (r: Vec<(String, String)>)
        ensures
            pairs_view(r@) == self.pairs(),
    {
        let mut r: Vec<(String, String)> = Vec::new();
        let mut k: usize = 0;
        while k < self.entries.len()
            invariant
                k <= self.entries.len(),
                pairs_view(r@) == pairs_view(self.entries@).take(k as int),
            decreases self.entries.len() - k,
        {
            let key = self.entries[k].0.clone();
            let value = self.entries[k].1.clone();
            let ghost prev = r@;
            r.push((key, value));
            assert(r@ == prev.push((key, value)));
            assert(pairs_view(r@) =~= pairs_view(prev).push((key@, value@)));
            k = k + 1;
            assert(pairs_view(r@) =~= pairs_view(self.entries@).take(k as int));
        }
        assert(pairs_view(self.entries@).take(k as int) =~= pairs_view(self.entries@));
        r
    }

    /// A snapshot from key/value pairs; a later pair for the same key wins.
    pub fn from_pairs(pairs: Vec<(String, String)>) -> (m: ValueMap)
        ensures
            m@ == pairs_fold(pairs_view(pairs@)),
    {
        let mut m = ValueMap::new();
        let ghost order = pairs_view(pairs@);
        let mut k: usize = 0;
        while k < pairs.len()
            invariant
                order == pairs_view(pairs@),
                k <= pairs.len(),
                m@ == pairs_fold(order.take(k as int)),
            decreases pairs.len() - k,
        {
            let key = pairs[k].0.clone();
            let value = pairs[k].1.clone();
            assert(order.take(k + 1).drop_last() =~= order.take(k as int));
            m.insert(key, value);
            k = k + 1;
        }
        assert(order.take(pairs.len() as int) =~= order);
        m
    }
}

impl View for ValueMap {
    type V = Map<Seq<char>, Seq<char>>;

    closed spec fn view(&self) -> Map<Seq<char>, Seq<char>> {
        pairs_map(self.pairs())
    }
}

/// The map that inserting the pairs in order builds.
pub open spec fn pairs_fold(p: Seq<(Seq<char>, Seq<char>)>) -> Map<Seq<char>, Seq<char>>
    decreases p.len(),
{
    if p.len() == 0 {
        Map::empty()
    } else {
        pairs_fold(p.drop_last()).insert(p.last().0, p.last().1)
    }
}

} // verus!
