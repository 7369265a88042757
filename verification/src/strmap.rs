//! A map keyed by text, kept as a list of entries in the order in which the
//! keys were first inserted, no key occurring twice.

use vstd::prelude::*;
use vstd::string::*;
use crate::text::same_text;

verus! {

broadcast use vstd::map_lib::group_map_properties;

/// A map from text keys to values.
pub struct StrMap<V> {
    entries: Vec<(String, V)>,
}

impl<V> StrMap<V> {
    /// No key occurs twice among the entries.
    #[verifier::type_invariant]
    closed spec fn keys_distinct(self) -> bool {
        forall|i: int, j: int|
            0 <= i < self.entries@.len() && 0 <= j < self.entries@.len() && i != j
                ==> self.entries@[i].0@ != self.entries@[j].0@
    }

    /// The keys, in the order in which they were first inserted.
    pub closed spec fn keys(self) -> Seq<Seq<char>> {
        self.entries@.map_values(|e: (String, V)| e.0@)
    }

    closed spec fn has_key(self, k: Seq<char>) -> bool {
        exists|i: int| 0 <= i < self.entries@.len() && self.entries@[i].0@ == k
    }

    closed spec fn index_of(self, k: Seq<char>) -> int {
        choose|i: int| 0 <= i < self.entries@.len() && self.entries@[i].0@ == k
    }
}

impl<V: View> View for StrMap<V> {
    type V = Map<Seq<char>, V::V>;

    closed spec fn view(&self) -> Map<Seq<char>, V::V> {
        Map::new(|k: Seq<char>| self.has_key(k), |k: Seq<char>| self.entries@[self.index_of(k)].1@)
    }
}

impl<V: View> StrMap<V> {
    /// The entry at `i` is in the map with its value.
    proof fn lemma_entry(self, i: int)
        requires
            self.keys_distinct(),
            0 <= i < self.entries@.len(),
        ensures
            self@.contains_key(self.entries@[i].0@),
            self@[self.entries@[i].0@] == self.entries@[i].1@,
    {
        let k = self.entries@[i].0@;
        assert(self.has_key(k));
        let c = self.index_of(k);
        assert(c == i);
    }

    /// A key that no entry holds is not in the map.
    proof fn lemma_absent(self, k: Seq<char>)
        requires
            forall|i: int| 0 <= i < self.entries@.len() ==> self.entries@[i].0@ != k,
        ensures
            !self@.contains_key(k),
    {
    }

    /// The domain is the set of keys, and as large as the list of keys.
    proof fn lemma_domain(self)
        requires
            self.keys_distinct(),
        ensures
            self.keys().no_duplicates(),
            self@.dom() == self.keys().to_set(),
            self@.dom().finite(),
            self@.dom().len() == self.keys().len(),
    {
        let ks = self.keys();
        assert(ks.no_duplicates()) by {
            assert forall|i: int, j: int| 0 <= i < ks.len() && 0 <= j < ks.len() && i != j implies ks[i] != ks[j] by {
                assert(ks[i] == self.entries@[i].0@);
                assert(ks[j] == self.entries@[j].0@);
            }
        }
        assert forall|k: Seq<char>| self@.dom().contains(k) <==> ks.to_set().contains(k) by {
            if self@.dom().contains(k) {
                let i = self.index_of(k);
                assert(ks[i] == k);
            }
            if ks.to_set().contains(k) {
                let i = choose|i: int| 0 <= i < ks.len() && ks[i] == k;
                assert(self.entries@[i].0@ == k);
            }
        }
        assert(self@.dom() =~= ks.to_set());
        ks.unique_seq_to_set();
    }

    /// An empty map.
    pub fn new() -> (r: Self)
        ensures
            r@ == Map::<Seq<char>, V::V>::empty(),
            r.keys() == Seq::<Seq<char>>::empty(),
    {
        let r = StrMap { entries: Vec::new() };
        assert(r@ =~= Map::<Seq<char>, V::V>::empty());
        assert(r.keys() =~= Seq::<Seq<char>>::empty());
        r
    }

    fn find(&self, k: &str) -> (r: Option<usize>)
        ensures
            match r {
                Some(i) => i < self.entries@.len() && self.entries@[i as int].0@ == k@,
                None => forall|i: int| 0 <= i < self.entries@.len() ==> self.entries@[i].0@ != k@,
            },
    {
        let n = self.entries.len();
        let mut i: usize = 0;
        while i < n
            invariant
                i <= n,
                n == self.entries@.len(),
                forall|j: int| 0 <= j < i ==> self.entries@[j].0@ != k@,
            decreases n - i,
        {
            if same_text(self.entries[i].0.as_str(), k) {
                return Some(i);
            }
            i = i + 1;
        }
        None
    }

    /// The number of keys.
    ///
    /// Each key of the map is listed in `keys()` exactly once.
    pub fn len(&self) -> (r: usize)
        ensures
            self.keys().no_duplicates(),
            self@.dom() == self.keys().to_set(),
            forall|i: int| 0 <= i < self.keys().len() ==> self@.contains_key(#[trigger] self.keys()[i]),
            self@.dom().finite(),
            r == self@.dom().len(),
            r == self.keys().len(),
    {
        proof {
            use_type_invariant(self);
            self.lemma_domain();
            assert forall|i: int| 0 <= i < self.keys().len() implies self@.contains_key(#[trigger] self.keys()[i]) by {
                self.lemma_entry(i);
            }
        }
        self.entries.len()
    }

    /// Whether the map holds no key.
    pub fn is_empty(&self) -> (r: bool)
        ensures
            r == self@.is_empty(),
    {
        proof {
            use_type_invariant(self);
            self.lemma_domain();
        }
        let n = self.entries.len();
        proof {
            if n == 0 {
                assert(self@.dom() =~= Set::<Seq<char>>::empty());
            } else {
                self.lemma_entry(0);
                assert(self@.dom().contains(self.entries@[0].0@));
            }
        }
        n == 0
    }

    /// Whether `k` is a key of the map.
    pub fn contains_key(&self, k: &str) -> (r: bool)
        ensures
            r == self@.contains_key(k@),
    {
        proof {
            use_type_invariant(self);
        }
        match self.find(k) {
            Some(i) => {
                proof {
                    self.lemma_entry(i as int);
                }
                true
            },
            None => false,
        }
    }

    /// The value of `k`, if `k` is a key.
    pub fn get(&self, k: &str) -> (r: Option<&V>)
        ensures
            match r {
                Some(v) => self@.contains_key(k@) && self@[k@] == v@,
                None => !self@.contains_key(k@),
            },
    {
        proof {
            use_type_invariant(self);
        }
        match self.find(k) {
            Some(i) => {
                proof {
                    self.lemma_entry(i as int);
                }
                Some(&self.entries[i].1)
            },
            None => None,
        }
    }

    /// Maps `k` to `v`: an existing key keeps its place in the order of the
    /// keys and gets the new value; a new key comes last.
    pub fn insert(&mut self, k: String, v: V)
        ensures
            final(self)@ == old(self)@.insert(k@, v@),
            final(self).keys() == if old(self)@.contains_key(k@) {
                old(self).keys()
            } else {
                old(self).keys().push(k@)
            },
    {
        proof {
            use_type_invariant(&*self);
        }
        let ghost before = *self;
        let ghost kv = k@;
        let ghost vv = v@;
        match self.find(k.as_str()) {
            Some(i) => {
                proof {
                    before.lemma_entry(i as int);
                }
                let mut es: Vec<(String, V)> = Vec::new();
                std::mem::swap(&mut es, &mut self.entries);
                es.set(i, (k, v));
                proof {
                    assert(StrMap { entries: es }.keys_distinct());
                }
                self.entries = es;
                proof {
                    let after = *self;
                    assert(after.keys_distinct());
                    assert(after.keys() =~= before.keys());
                    assert forall|x: Seq<char>| #[trigger] after@.contains_key(x) == before@.insert(kv, vv).contains_key(x)
                        && (after@.contains_key(x) ==> after@[x] == before@.insert(kv, vv)[x]) by {
                        if x == kv {
                            after.lemma_entry(i as int);
                        } else if after@.contains_key(x) {
                            let c = after.index_of(x);
                            after.lemma_entry(c);
                            before.lemma_entry(c);
                        } else if before@.contains_key(x) {
                            let c = before.index_of(x);
                            assert(after.entries@[c].0@ == x);
                        }
                    }
                    assert(after@ =~= before@.insert(kv, vv));
                }
            },
            None => {
                proof {
                    before.lemma_absent(kv);
                }
                let mut es: Vec<(String, V)> = Vec::new();
                std::mem::swap(&mut es, &mut self.entries);
                es.push((k, v));
                proof {
                    assert(StrMap { entries: es }.keys_distinct());
                }
                self.entries = es;
                proof {
                    let after = *self;
                    let n = before.entries@.len() as int;
                    assert(after.keys_distinct());
                    assert(after.keys() =~= before.keys().push(kv));
                    assert forall|x: Seq<char>| #[trigger] after@.contains_key(x) == before@.insert(kv, vv).contains_key(x)
                        && (after@.contains_key(x) ==> after@[x] == before@.insert(kv, vv)[x]) by {
                        if x == kv {
                            after.lemma_entry(n);
                        } else if after@.contains_key(x) {
                            let c = after.index_of(x);
                            after.lemma_entry(c);
                            before.lemma_entry(c);
                        } else if before@.contains_key(x) {
                            let c = before.index_of(x);
                            assert(after.entries@[c].0@ == x);
                        }
                    }
                    assert(after@ =~= before@.insert(kv, vv));
                }
            },
        }
    }

    /// Takes `k` out of the map, giving back its value if it was a key; the
    /// other keys keep their order.
    pub fn remove(&mut self, k: &str) -> (r: Option<V>)
        ensures
            final(self)@ == old(self)@.remove(k@),
            old(self)@.contains_key(k@) ==> exists|i: int|
                0 <= i < old(self).keys().len() && old(self).keys()[i] == k@
                    && final(self).keys() == old(self).keys().remove(i),
            !old(self)@.contains_key(k@) ==> final(self).keys() == old(self).keys(),
            match r {
                Some(v) => old(self)@.contains_key(k@) && old(self)@[k@] == v@,
                None => !old(self)@.contains_key(k@),
            },
    {
        proof {
            use_type_invariant(&*self);
        }
        let ghost before = *self;
        match self.find(k) {
            Some(i) => {
                proof {
                    before.lemma_entry(i as int);
                }
                let mut es: Vec<(String, V)> = Vec::new();
                std::mem::swap(&mut es, &mut self.entries);
                let e = es.remove(i);
                proof {
                    assert(StrMap { entries: es }.keys_distinct()) by {
                        assert forall|a: int, b: int| 0 <= a < es@.len() && 0 <= b < es@.len() && a != b
                            implies es@[a].0@ != es@[b].0@ by {
                            let oa = if a < i { a } else { a + 1 };
                            let ob = if b < i { b } else { b + 1 };
                            assert(es@[a] == before.entries@[oa]);
                            assert(es@[b] == before.entries@[ob]);
                        }
                    }
                }
                self.entries = es;
                proof {
                    let after = *self;
                    let kv = k@;
                    assert(after.keys_distinct());
                    assert forall|x: Seq<char>| #[trigger] after@.contains_key(x) == before@.remove(kv).contains_key(x)
                        && (after@.contains_key(x) ==> after@[x] == before@.remove(kv)[x]) by {
                        if after@.contains_key(x) {
                            let c = after.index_of(x);
                            after.lemma_entry(c);
                            if c < i {
                                before.lemma_entry(c);
                            } else {
                                before.lemma_entry(c + 1);
                            }
                        } else if before@.contains_key(x) && x != kv {
                            let c = before.index_of(x);
                            if c < i {
                                assert(after.entries@[c].0@ == x);
                            } else {
                                assert(c != i);
                                assert(after.entries@[c - 1].0@ == x);
                            }
                        }
                    }
                    assert(after@ =~= before@.remove(kv));
                    assert(after.keys() =~= before.keys().remove(i as int));
                    assert(before.keys()[i as int] == kv);
                }
                Some(e.1)
            },
            None => {
                proof {
                    before.lemma_absent(k@);
                    assert(before@ =~= before@.remove(k@));
                }
                None
            },
        }
    }

    /// The key at position `i` in the order of the keys.
    pub fn key_at(&self, i: usize) -> (r: &String)
        requires
            i < self.keys().len(),
        ensures
            r@ == self.keys()[i as int],
    {
        &self.entries[i].0
    }

    /// The value of the key at position `i` in the order of the keys.
    pub fn value_at(&self, i: usize) -> (r: &V)
        requires
            i < self.keys().len(),
        ensures
            self@.contains_key(self.keys()[i as int]),
            r@ == self@[self.keys()[i as int]],
    {
        proof {
            use_type_invariant(self);
            self.lemma_entry(i as int);
        }
        &self.entries[i].1
    }

    /// The entries, keys in their order, each with its value.
    pub fn into_entries(self) -> (r: Vec<(String, V)>)
        ensures
            r@.len() == self.keys().len(),
            forall|i: int| 0 <= i < r@.len() ==> #[trigger] r@[i].0@ == self.keys()[i] && self@.contains_key(self.keys()[i])
                && r@[i].1@ == self@[self.keys()[i]],
    {
        proof {
            use_type_invariant(&self);
            assert forall|i: int| 0 <= i < self.entries@.len() implies self@.contains_key(self.keys()[i])
                && self.entries@[i].1@ == self@[self.keys()[i]] by {
                self.lemma_entry(i);
            }
        }
        self.entries
    }
}

} // verus!