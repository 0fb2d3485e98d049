//! A map from texts, kept in the order of its keys.

use vstd::prelude::*;

use crate::order::{law_text_order_is_total, precedes, text_le, text_order};
use crate::text::same;

verus! {

/// A map from texts to values, walked in the order of its keys.
#[derive(Debug)]
pub struct TextMap<V> {
    entries: Vec<(String, V)>,
}

/// Whether keys stand in order, each once.
pub open spec fn ascending(keys: Seq<Seq<char>>) -> bool {
    forall|i: int, j: int|
        0 <= i < j < keys.len() ==> text_le(#[trigger] keys[i], #[trigger] keys[j]) && keys[i]
            != keys[j]
}

impl<V> View for TextMap<V> {
    type V = Map<Seq<char>, V>;

    closed spec fn view(&self) -> Map<Seq<char>, V> {
        Map::new(
            |k: Seq<char>| self.keys_of().contains(k),
            |k: Seq<char>| self.entries@[self.keys_of().index_of(k)].1,
        )
    }
}

impl<V> TextMap<V> {
    /// The keys, in order.
    pub closed spec fn keys_of(&self) -> Seq<Seq<char>> {
        Seq::new(self.entries@.len(), |i: int| self.entries@[i].0@)
    }

    #[verifier::type_invariant]
    spec fn well_formed(self) -> bool {
        ascending(self.keys_of())
    }

    /// The keys are exactly those that are mapped.
    pub proof fn lemma_keys(&self)
        ensures
            forall|k: Seq<char>| self.keys_of().contains(k) <==> #[trigger] self@.dom().contains(k),
    {
    }

    proof fn lemma_at(&self, i: int)
        requires
            ascending(self.keys_of()),
            0 <= i < self.entries@.len(),
        ensures
            self.keys_of().index_of(self.entries@[i].0@) == i,
            self@.dom().contains(self.entries@[i].0@),
            self@[self.entries@[i].0@] == self.entries@[i].1,
    {
        let k = self.entries@[i].0@;
        assert(self.keys_of()[i] == k);
        let j = self.keys_of().index_of(k);
        assert(self.keys_of().contains(k));
        assert(self.keys_of()[j] == k);
        if j < i {
            assert(self.keys_of()[j] != self.keys_of()[i]);
        } else if i < j {
            assert(self.keys_of()[i] != self.keys_of()[j]);
        }
    }

    /// A map of nothing.
    pub fn new() -> (r: Self)
        ensures
            r@ == Map::<Seq<char>, V>::empty(),
            r.keys_of() == Seq::<Seq<char>>::empty(),
    {
        let r = TextMap { entries: Vec::new() };
        assert(r.keys_of() =~= Seq::<Seq<char>>::empty());
        assert(r@ =~= Map::<Seq<char>, V>::empty());
        r
    }

    /// What the keys are: in order, each once, and exactly those that are mapped.
    pub fn keys(&self) -> (r: Vec<String>)
        ensures
            r.deep_view() == self.keys_of(),
            ascending(self.keys_of()),
            forall|k: Seq<char>| self.keys_of().contains(k) <==> #[trigger] self@.dom().contains(k),
    {
        proof {
            use_type_invariant(self);
        }
        let mut r: Vec<String> = Vec::new();
        let mut i: usize = 0;
        while i < self.entries.len()
            invariant
                i <= self.entries@.len(),
                r.deep_view() == self.keys_of().take(i as int),
            decreases self.entries@.len() - i,
        {
            let ghost before = r.deep_view();
            r.push(self.entries[i].0.clone());
            assert(r.deep_view() =~= before.push(self.keys_of()[i as int]));
            assert(r.deep_view() =~= self.keys_of().take(i + 1));
            i += 1;
        }
        assert(self.keys_of().take(i as int) =~= self.keys_of());
        r
    }

    /// How many keys there are.
    pub fn len(&self) -> (r: usize)
        ensures
            r == self.keys_of().len(),
    {
        self.entries.len()
    }

    /// The `i`-th key in order, and its value.
    pub fn at(&self, i: usize) -> (r: (&str, &V))
        requires
            i < self.keys_of().len(),
        ensures
            r.0@ == self.keys_of()[i as int],
            self@.dom().contains(r.0@),
            *r.1 == self@[r.0@],
    {
        proof {
            use_type_invariant(self);
            self.lemma_at(i as int);
        }
        (self.entries[i].0.as_str(), &self.entries[i].1)
    }

    fn find(&self, key: &str) -> (r: Option<usize>)
        ensures
            match r {
                Some(i) => i < self.entries@.len() && self.entries@[i as int].0@ == key@,
                None => !self.keys_of().contains(key@),
            },
    {
        let mut i: usize = 0;
        while i < self.entries.len()
            invariant
                i <= self.entries@.len(),
                forall|k: int| 0 <= k < i ==> #[trigger] self.keys_of()[k] != key@,
            decreases self.entries@.len() - i,
        {
            assert(self.keys_of()[i as int] == self.entries@[i as int].0@);
            if same(&self.entries[i].0, key) {
                return Some(i);
            }
            i += 1;
        }
        None
    }

    /// The value of a key.
    pub fn get(&self, key: &str) -> (r: Option<&V>)
        ensures
            match r {
                Some(value) => self@.dom().contains(key@) && *value == self@[key@],
                None => !self@.dom().contains(key@),
            },
    {
        proof {
            use_type_invariant(self);
        }
        match self.find(key) {
            Some(i) => {
                proof {
                    self.lemma_at(i as int);
                }
                Some(&self.entries[i].1)
            },
            None => None,
        }
    }

    /// Whether a key is mapped.
    pub fn contains(&self, key: &str) -> (r: bool)
        ensures
            r == self@.dom().contains(key@),
    {
        match self.find(key) {
            Some(i) => {
                assert(self.keys_of()[i as int] == key@);
                true
            },
            None => false,
        }
    }

    /// Maps a key to a value, and returns the value it displaced.
    pub fn insert(&mut self, key: String, value: V) -> (r: Option<V>)
        ensures
            final(self)@ == old(self)@.insert(key@, value),
            match r {
                Some(displaced) => old(self)@.dom().contains(key@) && displaced
                    == old(self)@[key@],
                None => !old(self)@.dom().contains(key@),
            },
    {
        proof {
            use_type_invariant(&*self);
        }
        let ghost before = *self;
        let ghost old_keys = self.keys_of();
        let found = self.find(&key);
        let mut entries: Vec<(String, V)> = Vec::new();
        std::mem::swap(&mut entries, &mut self.entries);
        match found {
            Some(i) => {
                proof {
                    before.lemma_at(i as int);
                }
                let (old_key, displaced) = entries.remove(i);
                entries.insert(i, (old_key, value));
                assert(Seq::new(entries@.len(), |j: int| entries@[j].0@) =~= old_keys);
                let after = TextMap { entries };
                proof {
                    assert(after.keys_of() =~= old_keys);
                    assert forall|k: Seq<char>| #[trigger] after@.dom().contains(k) implies after@[k]
                        == before@.insert(key@, value)[k] by {
                        let j = after.keys_of().index_of(k);
                        assert(after.keys_of()[j] == k);
                        assert(before.keys_of()[j] == k);
                    }
                    assert(after@ =~= before@.insert(key@, value));
                }
                self.entries = after.take();
                Some(displaced)
            },
            None => {
                let mut at: usize = 0;
                while at < entries.len() && precedes(&entries[at].0, &key)
                    invariant
                        at <= entries@.len(),
                        forall|k: int| 0 <= k < at ==> text_le((#[trigger] entries@[k]).0@, key@),
                    decreases entries@.len() - at,
                {
                    at += 1;
                }
                entries.insert(at, (key, value));
                proof {
                    law_text_order_is_total();
                    let le = text_order();
                    let new_keys = Seq::new(entries@.len(), |i: int| entries@[i].0@);
                    assert(new_keys =~= old_keys.insert(at as int, key@));
                    assert forall|i: int, j: int| 0 <= i < j < new_keys.len() implies text_le(
                        #[trigger] new_keys[i],
                        #[trigger] new_keys[j],
                    ) && new_keys[i] != new_keys[j] by {
                        if j == at {
                            assert(new_keys[i] == old_keys[i]);
                            assert(before.entries@[i].0@ == old_keys[i]);
                        } else if i == at {
                            assert(new_keys[j] == old_keys[j - 1]);
                            assert(!le(old_keys[at as int], key@));
                            assert(le(key@, old_keys[at as int]));
                            if j - 1 > at {
                                assert(le(old_keys[at as int], old_keys[j - 1]));
                                assert(le(key@, old_keys[j - 1]));
                            }
                        } else {
                            let a = if i < at {
                                i
                            } else {
                                i - 1
                            };
                            let b = if j < at {
                                j
                            } else {
                                j - 1
                            };
                            assert(new_keys[i] == old_keys[a]);
                            assert(new_keys[j] == old_keys[b]);
                        }
                    }
                }
                let after = TextMap { entries };
                proof {
                    let new_keys = after.keys_of();
                    assert(new_keys =~= old_keys.insert(at as int, key@));
                    after.lemma_at(at as int);
                    assert forall|k: Seq<char>| #[trigger]
                        after@.dom().contains(k) <==> before@.insert(key@, value).dom().contains(
                            k,
                        ) by {
                        if after@.dom().contains(k) {
                            let j = new_keys.index_of(k);
                            assert(new_keys[j] == k);
                            if j != at {
                                assert(old_keys[if j < at {
                                    j
                                } else {
                                    j - 1
                                }] == k);
                            }
                        }
                        if before@.dom().contains(k) {
                            let j = old_keys.index_of(k);
                            assert(old_keys[j] == k);
                            assert(new_keys[if j < at {
                                j
                            } else {
                                j + 1
                            }] == k);
                        }
                        assert(new_keys[at as int] == key@);
                    }
                    assert forall|k: Seq<char>| #[trigger] after@.dom().contains(k) implies after@[k]
                        == before@.insert(key@, value)[k] by {
                        if k != key@ {
                            let j = new_keys.index_of(k);
                            assert(new_keys[j] == k);
                            let i = if j < at {
                                j
                            } else {
                                j - 1
                            };
                            assert(old_keys[i] == k);
                            before.lemma_at(i);
                            after.lemma_at(j);
                        }
                    }
                    assert(after@ =~= before@.insert(key@, value));
                }
                self.entries = after.take();
                None
            },
        }
    }

    /// Replaces the `i`-th value.
    pub fn replace_at(&mut self, i: usize, value: V)
        requires
            i < old(self).keys_of().len(),
        ensures
            final(self).keys_of() == old(self).keys_of(),
            final(self)@ == old(self)@.insert(old(self).keys_of()[i as int], value),
            old(self)@.dom().contains(old(self).keys_of()[i as int]),
    {
        proof {
            use_type_invariant(&*self);
        }
        let ghost before = *self;
        let ghost old_keys = self.keys_of();
        let ghost key = old_keys[i as int];
        proof {
            before.lemma_at(i as int);
        }
        let mut entries: Vec<(String, V)> = Vec::new();
        std::mem::swap(&mut entries, &mut self.entries);
        let (old_key, _) = entries.remove(i);
        entries.insert(i, (old_key, value));
        assert(Seq::new(entries@.len(), |j: int| entries@[j].0@) =~= old_keys);
        let after = TextMap { entries };
        proof {
            assert(after.keys_of() =~= old_keys);
            assert forall|k: Seq<char>| #[trigger] after@.dom().contains(k) implies after@[k]
                == before@.insert(key, value)[k] by {
                let j = after.keys_of().index_of(k);
                assert(after.keys_of()[j] == k);
                assert(before.keys_of()[j] == k);
            }
            assert(after@ =~= before@.insert(key, value));
        }
        self.entries = after.take();
    }

    fn take(self) -> (r: Vec<(String, V)>)
        ensures
            r == self.entries,
            ascending(self.keys_of()),
    {
        proof {
            use_type_invariant(&self);
        }
        self.entries
    }

    /// The values, in the order of their keys.
    pub fn into_values(self) -> (r: Vec<V>)
        ensures
            r@ == Seq::new(self.keys_of().len(), |i: int| self@[self.keys_of()[i]]),
            ascending(self.keys_of()),
            forall|k: Seq<char>| self.keys_of().contains(k) <==> #[trigger] self@.dom().contains(k),
    {
        let ghost me = self;
        let mut rest = self.take();
        let mut r: Vec<V> = Vec::new();
        let ghost mut done: int = 0;
        assert(me.entries@.skip(0) =~= me.entries@);
        while rest.len() > 0
            invariant
                0 <= done <= me.entries@.len(),
                rest@ == me.entries@.skip(done),
                r@.len() == done,
                ascending(me.keys_of()),
                forall|i: int| 0 <= i < done ==> #[trigger] r@[i] == me@[me.keys_of()[i]],
            decreases rest@.len(),
        {
            proof {
                me.lemma_at(done);
            }
            let (_, value) = rest.remove(0);
            assert(me.entries@.skip(done).remove(0) =~= me.entries@.skip(done + 1));
            r.push(value);
            proof {
                done = done + 1;
            }
        }
        assert(r@ =~= Seq::new(me.keys_of().len(), |i: int| me@[me.keys_of()[i]]));
        r
    }
}

/// The keys of a map of texts, each with what it maps to, in order.
pub open spec fn pairs_of(map: TextMap<String>) -> Seq<(Seq<char>, Seq<char>)> {
    Seq::new(map.keys_of().len(), |i: int| (map.keys_of()[i], map@[map.keys_of()[i]]@))
}

/// What a map of texts maps to.
pub open spec fn texts_of(map: TextMap<String>) -> Map<Seq<char>, Seq<char>> {
    Map::new(|k: Seq<char>| map@.dom().contains(k), |k: Seq<char>| map@[k]@)
}

} // verus!
