//! A map from text keys to values that keeps its entries in insertion
//! order. Reading goes through the first entry of a key; inserting replaces
//! that entry's value or appends a new entry, so keys stay distinct.

use vstd::prelude::*;
use crate::text::str_eq;

verus! {

/// Index of the first occurrence of `k` in `keys`, if any.
pub open spec fn first_index(keys: Seq<Seq<char>>, k: Seq<char>) -> int {
    choose|i: int| 0 <= i < keys.len() && keys[i] == k && forall|j: int| 0 <= j < i ==> keys[j] != k
}

/// A key that occurs has a first occurrence.
pub proof fn lemma_first_index(keys: Seq<Seq<char>>, k: Seq<char>, i: int)
    requires
        0 <= i < keys.len(),
        keys[i] == k,
    ensures
        0 <= first_index(keys, k) <= i,
        keys[first_index(keys, k)] == k,
        forall|j: int| 0 <= j < first_index(keys, k) ==> keys[j] != k,
    decreases i,
{
    if exists|j: int| 0 <= j < i && keys[j] == k {
        let j = choose|j: int| 0 <= j < i && keys[j] == k;
        lemma_first_index(keys, k, j);
    } else {
        assert(0 <= i < keys.len() && keys[i] == k && forall|j: int| 0 <= j < i ==> keys[j] != k);
    }
}

/// Whether no key occurs twice.
pub open spec fn distinct_keys(keys: Seq<Seq<char>>) -> bool {
    forall|i: int, j: int| 0 <= i < j < keys.len() ==> #[trigger] keys[i] != #[trigger] keys[j]
}

#[derive(Clone, Debug)]
pub struct TextMap<V> {
    entries: Vec<(String, V)>,
}

impl<V> TextMap<V> {
    /// The keys in entry order.
    pub closed spec fn keys(&self) -> Seq<Seq<char>> {
        Seq::new(self.entries@.len(), |i: int| self.entries@[i].0@)
    }

    /// The values in entry order.
    pub closed spec fn values(&self) -> Seq<V> {
        Seq::new(self.entries@.len(), |i: int| self.entries@[i].1)
    }

    /// The map the entries stand for.
    pub closed spec fn spec_map(&self) -> Map<Seq<char>, V> {
        Map::new(
            |k: Seq<char>| self.keys().contains(k),
            |k: Seq<char>| self.values()[first_index(self.keys(), k)],
        )
    }

    /// The map holds exactly the keys of the entries.
    pub proof fn lemma_domain(&self)
        ensures
            forall|k: Seq<char>| #[trigger] self.spec_map().contains_key(k) <==> self.keys().contains(k),
            self.values().len() == self.keys().len(),
    {
    }

    /// With distinct keys, each entry's value is the value of its key.
    pub proof fn lemma_entry_value(&self, i: int)
        requires
            distinct_keys(self.keys()),
            0 <= i < self.keys().len(),
        ensures
            self.spec_map()[self.keys()[i]] == self.values()[i],
    {
        let k = self.keys()[i];
        assert(self.keys().contains(k));
        lemma_first_index(self.keys(), k, i);
        let f = first_index(self.keys(), k);
        if f < i {
        } else if f > i {
        }
    }

    /// An empty map.
    pub fn new() -> (m: Self)
        ensures
            m.keys() == Seq::<Seq<char>>::empty(),
            m.spec_map() == Map::<Seq<char>, V>::empty(),
    {
        let m = TextMap { entries: Vec::new() };
        assert(m.spec_map() =~= Map::<Seq<char>, V>::empty());
        m
    }

    /// The number of entries.
    pub fn len(&self) -> (n: usize)
        ensures
            n == self.keys().len(),
    {
        self.entries.len()
    }

    /// The entries in order.
    pub fn entries(&self) -> (e: &Vec<(String, V)>)
        ensures
            e@.len() == self.keys().len(),
            forall|i: int| 0 <= i < e@.len() ==> #[trigger] e@[i].0@ == self.keys()[i],
            forall|i: int| 0 <= i < e@.len() ==> #[trigger] e@[i].1 == self.values()[i],
    {
        &self.entries
    }

    /// Index of the entry for a key, if there is one.
    pub fn find(&self, k: &str) -> (r: Option<usize>)
        ensures
            match r {
                Some(i) => self.keys().contains(k@) && i == first_index(self.keys(), k@) && i
                    < self.keys().len() && self.keys()[i as int] == k@,
                None => !self.keys().contains(k@),
            },
    {
        let mut i: usize = 0;
        while i < self.entries.len()
            invariant
                i <= self.entries.len(),
                forall|j: int| 0 <= j < i ==> self.keys()[j] != k@,
            decreases self.entries.len() - i,
        {
            if str_eq(self.entries[i].0.as_str(), k) {
                proof {
                    assert(self.keys()[i as int] == k@);
                    lemma_first_index(self.keys(), k@, i as int);
                    let f = first_index(self.keys(), k@);
                    if f < i {
                    } else if f > i {
                    }
                }
                return Some(i);
            }
            i += 1;
        }
        None
    }

    /// The value stored for a key, if any.
    pub fn get(&self, k: &str) -> (r: Option<&V>)
        ensures
            match r {
                Some(v) => self.spec_map().contains_key(k@) && *v == self.spec_map()[k@],
                None => !self.spec_map().contains_key(k@),
            },
    {
        match self.find(k) {
            Some(i) => Some(&self.entries[i].1),
            None => None,
        }
    }

    /// Sets the value of a key: the entry of the key gets the new value, or
    /// a new entry is appended at the end.
    #[verifier::spinoff_prover]
    #[verifier::rlimit(30)]
    pub fn insert(&mut self, k: String, v: V)
        ensures
            final(self).spec_map() == old(self).spec_map().insert(k@, v),
            old(self).keys().contains(k@) ==> final(self).keys() == old(self).keys(),
            !old(self).keys().contains(k@) ==> final(self).keys() == old(self).keys().push(k@),
            distinct_keys(old(self).keys()) ==> distinct_keys(final(self).keys()),
    {
        let ghost old_keys = self.keys();
        let ghost old_values = self.values();
        match self.find(k.as_str()) {
            Some(i) => {
                let ghost kv = k@;
                self.entries.set(i, (k, v));
                proof {
                    assert(self.keys() =~= old_keys);
                    assert(self.values() =~= old_values.update(i as int, v));
                    assert forall|q: Seq<char>| self.keys().contains(q) implies self.values()[first_index(
                        self.keys(),
                        q,
                    )] == old(self).spec_map().insert(kv, v)[q] by {
                        let w = choose|w: int| 0 <= w < old_keys.len() && old_keys[w] == q;
                        lemma_first_index(old_keys, q, w);
                    }
                    assert(self.spec_map() =~= old(self).spec_map().insert(kv, v));
                }
            },
            None => {
                let ghost kv = k@;
                self.entries.push((k, v));
                proof {
                    assert(self.keys() =~= old_keys.push(kv));
                    assert(self.values() =~= old_values.push(v));
                    assert forall|q: Seq<char>| self.keys().contains(q) implies self.values()[first_index(
                        self.keys(),
                        q,
                    )] == old(self).spec_map().insert(kv, v)[q] by {
                        let w = choose|w: int| 0 <= w < self.keys().len() && self.keys()[w] == q;
                        lemma_first_index(self.keys(), q, w);
                        let f = first_index(self.keys(), q);
                        if q == kv {
                            if f < old_keys.len() {
                                assert(old_keys.contains(kv));
                            }
                        } else {
                            assert(old_keys.contains(q)) by {
                                assert(old_keys[f] == q);
                            }
                            lemma_first_index(old_keys, q, f);
                            let g = first_index(old_keys, q);
                            assert(self.keys()[g] == q);
                            if g < f {
                            } else if f < g {
                            }
                        }
                    }
                    assert forall|q: Seq<char>| old(self).spec_map().insert(kv, v).contains_key(q) implies self.keys().contains(q) by {
                        if q == kv {
                            assert(self.keys()[old_keys.len() as int] == kv);
                        } else {
                            let f = choose|f: int| 0 <= f < old_keys.len() && old_keys[f] == q;
                            assert(self.keys()[f] == q);
                        }
                    }
                    assert(self.spec_map() =~= old(self).spec_map().insert(kv, v));
                }
            },
        }
    }

    /// The values in entry order, taking the map apart.
    pub fn into_values(self) -> (v: Vec<V>)
        ensures
            v@ == self.values(),
    {
        let ghost all = self.values();
        let mut entries = self.entries;
        let mut out: Vec<V> = Vec::new();
        while entries.len() > 0
            invariant
                out@.len() + entries@.len() == all.len(),
                forall|i: int| 0 <= i < out@.len() ==> out@[i] == all[i],
                forall|i: int| 0 <= i < entries@.len() ==> entries@[i].1 == all[out@.len() + i],
            decreases entries@.len(),
        {
            let (_, v) = entries.remove(0);
            out.push(v);
        }
        assert(out@ =~= all);
        out
    }
}

} // verus!
