//! A map keyed by strings, kept as a vector of entries with distinct keys in
//! the order in which the keys were first inserted.

use vstd::prelude::*;
use crate::seq_util::{lemma_distinct_push, lemma_index_of_key, lemma_update_same_key};

verus! {

/// One entry of a `StringMap`.
#[derive(Debug)]
pub struct Entry<V> {
    key: String,
    value: V,
}

/// What the entries stand for: each key with the view of its value.
pub closed spec fn entry_views<V: View>(s: Seq<Entry<V>>) -> Seq<(Seq<char>, V::V)> {
    s.map_values(|e: Entry<V>| (e.key@, e.value@))
}

/// The keys of a sequence of pairs, in order.
pub open spec fn pair_keys<T>(s: Seq<(Seq<char>, T)>) -> Seq<Seq<char>> {
    s.map_values(|p: (Seq<char>, T)| p.0)
}

/// The map that a sequence of pairs with distinct keys stands for.
pub open spec fn pairs_to_map<T>(s: Seq<(Seq<char>, T)>) -> Map<Seq<char>, T> {
    Map::new(|k: Seq<char>| pair_keys(s).contains(k), |k: Seq<char>| s[pair_keys(s).index_of(k)].1)
}

/// A map from strings to values of type `V`.
#[derive(Debug)]
pub struct StringMap<V: View> {
    entries: Vec<Entry<V>>,
}

impl<V: View> View for StringMap<V> {
    type V = Map<Seq<char>, V::V>;

    closed spec fn view(&self) -> Map<Seq<char>, V::V> {
        pairs_to_map(entry_views(self.entries@))
    }
}

impl<V: View> StringMap<V> {
    /// No two entries share a key.
    #[verifier::type_invariant]
    spec fn distinct_keys(self) -> bool {
        pair_keys(entry_views(self.entries@)).no_duplicates()
    }

    /// The entries in the order in which their keys were first inserted.
    pub closed spec fn pairs(&self) -> Seq<(Seq<char>, V::V)> {
        entry_views(self.entries@)
    }

    /// The map is the one that the entries stand for.
    pub proof fn lemma_view(&self)
        ensures
            self@ == pairs_to_map(self.pairs()),
    {
    }

    /// An empty map.
    pub fn new() -> (r: Self)
        ensures
            r@ == Map::<Seq<char>, V::V>::empty(),
            r.pairs() == Seq::<(Seq<char>, V::V)>::empty(),
    {
        let r = StringMap { entries: Vec::new() };
        proof {
            assert(r.pairs() =~= Seq::<(Seq<char>, V::V)>::empty());
            assert(r@ =~= Map::<Seq<char>, V::V>::empty());
        }
        r
    }

    /// Number of entries. Their keys are distinct.
    pub fn len(&self) -> (n: usize)
        ensures
            n == self.pairs().len(),
            n == self@.len(),
            self@.dom().finite(),
            pair_keys(self.pairs()).no_duplicates(),
    {
        proof {
            use_type_invariant(self);
            let keys = pair_keys(self.pairs());
            assert(self@.dom() =~= keys.to_set());
            keys.unique_seq_to_set();
        }
        self.entries.len()
    }

    /// Position of the entry with that key, if there is one.
    pub fn position(&self, key: &String) -> (r: Option<usize>)
        ensures
            r is Some <==> self@.contains_key(key@),
            r is Some ==> r->0 < self.pairs().len() && self.pairs()[r->0 as int].0 == key@
                && self.pairs()[r->0 as int].1 == self@[key@],
    {
        proof {
            use_type_invariant(self);
        }
        let ghost keys = pair_keys(self.pairs());
        let mut i: usize = 0;
        while i < self.entries.len()
            invariant
                i <= self.entries.len(),
                keys == pair_keys(self.pairs()),
                keys.len() == self.entries.len(),
                keys.no_duplicates(),
                forall|j: int| 0 <= j < i ==> keys[j] != key@,
            decreases self.entries.len() - i,
        {
            if self.entries[i].key == *key {
                proof {
                    assert(keys[i as int] == key@);
                    let k = keys.index_of(key@);
                    assert(keys[k] == key@);
                }
                return Some(i);
            }
            i += 1;
        }
        proof {
            if keys.contains(key@) {
                let k = choose|k: int| 0 <= k < keys.len() && keys[k] == key@;
                assert(keys[k] != key@);
            }
        }
        None
    }

    /// Whether the map holds that key.
    pub fn contains_key(&self, key: &String) -> (b: bool)
        ensures
            b == self@.contains_key(key@),
    {
        self.position(key).is_some()
    }

    /// The value under that key, if the map holds it.
    pub fn get(&self, key: &String) -> (r: Option<&V>)
        ensures
            r is Some <==> self@.contains_key(key@),
            r is Some ==> (*r->0)@ == self@[key@],
    {
        match self.position(key) {
            Some(i) => Some(&self.entries[i].value),
            None => None,
        }
    }

    /// The key of the entry at position `i`.
    pub fn key_at(&self, i: usize) -> (r: &String)
        requires
            i < self.pairs().len(),
        ensures
            r@ == self.pairs()[i as int].0,
    {
        &self.entries[i].key
    }

    /// The value of the entry at position `i`.
    pub fn value_at(&self, i: usize) -> (r: &V)
        requires
            i < self.pairs().len(),
        ensures
            r@ == self.pairs()[i as int].1,
    {
        &self.entries[i].value
    }

    /// Puts `value` under `key`, in place of the value that the key had, if
    /// it had one, and returns that value.
    pub fn insert(&mut self, key: String, value: V) -> (previous: Option<V>)
        ensures
            final(self)@ == old(self)@.insert(key@, value@),
            previous is Some <==> old(self)@.contains_key(key@),
            previous is Some ==> previous->0@ == old(self)@[key@],
            final(self).pairs() == if old(self)@.contains_key(key@) {
                old(self).pairs().update(
                    pair_keys(old(self).pairs()).index_of(key@),
                    (key@, value@),
                )
            } else {
                old(self).pairs().push((key@, value@))
            },
    {
        proof {
            use_type_invariant(&*self);
        }
        let ghost before = self.pairs();
        let ghost keys = pair_keys(before);
        let found = self.position(&key);
        let mut entries: Vec<Entry<V>> = Vec::new();
        proof {
            assert(pair_keys(entry_views(entries@)) =~= Seq::<Seq<char>>::empty());
        }
        std::mem::swap(&mut self.entries, &mut entries);
        let ghost given = value@;
        let mut value = value;
        let previous = match found {
            Some(i) => {
                std::mem::swap(&mut entries[i].value, &mut value);
                proof {
                    let after = entry_views(entries@);
                    assert(after =~= before.update(i as int, (key@, given)));
                    lemma_update_same_key(
                        before,
                        i as int,
                        (key@, given),
                        |p: (Seq<char>, V::V)| p.0,
                    );
                    lemma_index_of_key(before, i as int, |p: (Seq<char>, V::V)| p.0);
                    assert(pairs_to_map(after) =~= pairs_to_map(before).insert(key@, given)) by {
                        assert forall|k: Seq<char>| #[trigger]
                            pairs_to_map(after).contains_key(k) implies pairs_to_map(after)[k]
                            == pairs_to_map(before).insert(key@, given)[k] by {
                            let j = keys.index_of(k);
                            assert(keys[j] == k);
                        }
                    }
                }
                Some(value)
            },
            None => {
                entries.push(Entry { key, value });
                proof {
                    let after = entry_views(entries@);
                    assert(after =~= before.push((key@, given)));
                    lemma_distinct_push(before, (key@, given), |p: (Seq<char>, V::V)| p.0);
                    let akeys = pair_keys(after);
                    assert(akeys == keys.push(key@));
                    assert(pairs_to_map(after) =~= pairs_to_map(before).insert(key@, given)) by {
                        assert forall|k: Seq<char>| #[trigger]
                            pairs_to_map(after).contains_key(k) implies pairs_to_map(
                            before,
                        ).insert(key@, given).contains_key(k) && pairs_to_map(after)[k]
                            == pairs_to_map(before).insert(key@, given)[k] by {
                            let j = akeys.index_of(k);
                            assert(akeys[j] == k);
                            if j < keys.len() {
                                assert(keys[j] == k);
                                let j2 = keys.index_of(k);
                                assert(keys[j2] == k);
                                assert(akeys[j2] == k);
                            }
                        }
                        assert forall|k: Seq<char>| #[trigger]
                            pairs_to_map(before).insert(key@, given).contains_key(
                                k,
                            ) implies pairs_to_map(after).contains_key(k) by {
                            if k == key@ {
                                assert(akeys[keys.len() as int] == k);
                            } else {
                                let j = keys.index_of(k);
                                assert(keys[j] == k);
                                assert(akeys[j] == k);
                            }
                        }
                    }
                }
                None
            },
        };
        std::mem::swap(&mut self.entries, &mut entries);
        previous
    }
}

/// Types that can be copied value for value: a copy stands for what the
/// value it was made from stands for.
pub trait Duplicate: View + Sized {
    /// A copy of `self`.
    fn duplicate(&self) -> (r: Self)
        ensures
            r@ == self@,
    ;
}

impl Duplicate for String {
    fn duplicate(&self) -> (r: Self) {
        self.clone()
    }
}

impl<V: Duplicate> Duplicate for StringMap<V> {
    fn duplicate(&self) -> (r: Self) {
        self.copy()
    }
}

impl<V: Duplicate> StringMap<V> {
    /// A copy of the map, entry by entry, in the same order.
    pub fn copy(&self) -> (r: Self)
        ensures
            r@ == self@,
            r.pairs() == self.pairs(),
    {
        proof {
            use_type_invariant(self);
        }
        let mut entries: Vec<Entry<V>> = Vec::new();
        let mut i: usize = 0;
        while i < self.entries.len()
            invariant
                i <= self.entries.len(),
                entry_views(entries@) == entry_views(self.entries@).subrange(0, i as int),
            decreases self.entries.len() - i,
        {
            let ghost prev = entry_views(entries@);
            let e = Entry {
                key: self.entries[i].key.clone(),
                value: self.entries[i].value.duplicate(),
            };
            entries.push(e);
            proof {
                assert(entry_views(entries@) =~= prev.push((e.key@, e.value@)));
                assert(entry_views(self.entries@).subrange(0, i + 1) =~= entry_views(
                    self.entries@,
                ).subrange(0, i as int).push(entry_views(self.entries@)[i as int]));
            }
            i += 1;
        }
        proof {
            assert(entry_views(self.entries@).subrange(0, i as int) =~= entry_views(self.entries@));
        }
        StringMap { entries }
    }
}

} // verus!
