//! A finite map keyed by key material.
//!
//! Key material is a byte string, and two keys are the same when their
//! bytes are.  The map keeps its entries in a vector, in the order in which
//! their keys were first inserted, and finds a key by comparing bytes.
//! A hash map of std is not used for these keys: vstd gives a hash map a
//! meaning only for key types whose hashing it models, and byte vectors are
//! not among them.

use vstd::prelude::*;
use crate::seqs::{lemma_without_absent, lemma_without_remove, without};
use crate::text::bytes_eq;

verus! {

/// A finite map from key material to `V`.
#[derive(Debug)]
pub struct KeyMap<V> {
    keys: Vec<Vec<u8>>,
    values: Vec<V>,
}

impl<V> KeyMap<V> {
    /// The keys in the order of their entries.
    pub closed spec fn keys(&self) -> Seq<Seq<u8>> {
        self.keys@.map_values(|k: Vec<u8>| k@)
    }

    /// The values in the order of their entries.
    pub closed spec fn values(&self) -> Seq<V> {
        self.values@
    }

    /// Every key has one value, and no key occurs twice.
    pub closed spec fn wf(&self) -> bool {
        &&& self.keys@.len() == self.values@.len()
        &&& self.keys().no_duplicates()
    }

    /// The map that the entries stand for.
    pub open spec fn map(&self) -> Map<Seq<u8>, V> {
        Map::new(
            |k: Seq<u8>| self.keys().contains(k),
            |k: Seq<u8>| self.values()[self.keys().index_of(k)],
        )
    }

    /// The keys of the map.
    pub open spec fn dom(&self) -> Set<Seq<u8>> {
        self.map().dom()
    }

    /// In a well-formed map there are as many values as keys, entry `i`
    /// maps key `i` to value `i`, and the map has exactly the keys of the
    /// entries.
    pub proof fn lemma_entries(&self)
        requires
            self.wf(),
        ensures
            self.keys().len() == self.values().len(),
            self.keys().no_duplicates(),
            self.dom().finite(),
            forall|i: int|
                0 <= i < self.keys().len() ==> self.map().contains_key(#[trigger] self.keys()[i])
                    && self.map()[self.keys()[i]] == self.values()[i],
            forall|k: Seq<u8>| #[trigger]
                self.map().contains_key(k) ==> 0 <= self.keys().index_of(k) < self.keys().len()
                    && self.keys()[self.keys().index_of(k)] == k,
    {
        let keys = self.keys();
        assert forall|i: int| 0 <= i < keys.len() implies self.map().contains_key(
            #[trigger] keys[i],
        ) && self.map()[keys[i]] == self.values()[i] by {
            assert(keys.contains(keys[i]));
            let j = keys.index_of(keys[i]);
            assert(keys[j] == keys[i]);
        }
        assert(self.dom() =~= keys.to_set());
        vstd::seq_lib::seq_to_set_is_finite(keys);
    }

    /// An empty map.
    pub fn new() -> (res: Self)
        ensures
            res.wf(),
            res.map() == Map::<Seq<u8>, V>::empty(),
            res.keys() == Seq::<Seq<u8>>::empty(),
    {
        let res = KeyMap { keys: Vec::new(), values: Vec::new() };
        assert(res.keys() =~= Seq::<Seq<u8>>::empty());
        assert(res.map() =~= Map::<Seq<u8>, V>::empty());
        res
    }

    /// The number of entries.
    pub fn len(&self) -> (n: usize)
        requires
            self.wf(),
        ensures
            n == self.keys().len(),
            n == self.values().len(),
    {
        self.keys.len()
    }

    /// The key of entry `i`.
    pub fn key_at(&self, i: usize) -> (key: &Vec<u8>)
        requires
            self.wf(),
            i < self.keys().len(),
        ensures
            key@ == self.keys()[i as int],
    {
        &self.keys[i]
    }

    /// The value of entry `i`.
    pub fn value_at(&self, i: usize) -> (value: &V)
        requires
            self.wf(),
            i < self.keys().len(),
        ensures
            *value == self.values()[i as int],
    {
        &self.values[i]
    }

    /// The entry that holds `key`, if there is one.
    pub fn position(&self, key: &Vec<u8>) -> (res: Option<usize>)
        requires
            self.wf(),
        ensures
            res matches Some(i) ==> i < self.keys().len() && self.keys()[i as int] == key@,
            res is None ==> !self.keys().contains(key@),
            res is Some <==> self.map().contains_key(key@),
    {
        let mut i: usize = 0;
        while i < self.keys.len()
            invariant
                i <= self.keys@.len(),
                forall|j: int| 0 <= j < i ==> self.keys()[j] != key@,
            decreases self.keys@.len() - i,
        {
            if bytes_eq(&self.keys[i], key) {
                assert(self.keys()[i as int] == key@);
                assert(self.keys().contains(key@));
                return Some(i);
            }
            i += 1;
        }
        None
    }

    /// Whether `key` has a value.
    pub fn contains_key(&self, key: &Vec<u8>) -> (b: bool)
        requires
            self.wf(),
        ensures
            b == self.map().contains_key(key@),
    {
        self.position(key).is_some()
    }

    /// The value of `key`, if it has one.
    pub fn get(&self, key: &Vec<u8>) -> (res: Option<&V>)
        requires
            self.wf(),
        ensures
            res is Some <==> self.map().contains_key(key@),
            res matches Some(v) ==> *v == self.map()[key@],
    {
        match self.position(key) {
            Some(i) => {
                proof {
                    self.lemma_entries();
                }
                Some(&self.values[i])
            },
            None => None,
        }
    }

    /// Gives `key` the value `value`, in place of the one it may have had.
    /// A new key goes behind the others.
    pub fn insert(&mut self, key: Vec<u8>, value: V)
        requires
            old(self).wf(),
        ensures
            final(self).wf(),
            final(self).map() == old(self).map().insert(key@, value),
            old(self).map().contains_key(key@) ==> final(self).keys() == old(self).keys(),
            !old(self).map().contains_key(key@) ==> final(self).keys() == old(self).keys().push(
                key@,
            ),
    {
        proof {
            old(self).lemma_entries();
        }
        match self.position(&key) {
            Some(i) => {
                self.values.set(i, value);
                proof {
                    assert(final(self).keys() == old(self).keys());
                    final(self).lemma_entries();
                    assert forall|k: Seq<u8>| #[trigger]
                        final(self).map().contains_key(k) implies final(self).map()[k] == old(
                        self,
                    ).map().insert(key@, value)[k] by {
                        let j = final(self).keys().index_of(k);
                        assert(final(self).keys()[j] == k);
                    }
                    assert(final(self).map() =~= old(self).map().insert(key@, value));
                }
            },
            None => {
                let ghost k0 = key@;
                self.keys.push(key);
                self.values.push(value);
                proof {
                    assert(final(self).keys() =~= old(self).keys().push(k0));
                    assert forall|a: int, b: int|
                        0 <= a < final(self).keys().len() && 0 <= b < final(self).keys().len() && a
                            != b implies final(self).keys()[a] != final(self).keys()[b] by {
                        if a < old(self).keys().len() {
                            assert(old(self).keys().contains(final(self).keys()[a]));
                        }
                        if b < old(self).keys().len() {
                            assert(old(self).keys().contains(final(self).keys()[b]));
                        }
                    }
                    final(self).lemma_entries();
                    assert forall|k: Seq<u8>|
                        final(self).map().contains_key(k) <==> #[trigger] old(self).map().insert(
                            k0,
                            value,
                        ).contains_key(k) by {
                        if old(self).keys().contains(k) {
                            let j = old(self).keys().index_of(k);
                            assert(final(self).keys()[j] == k);
                        }
                        if k == k0 {
                            assert(final(self).keys()[old(self).keys().len() as int] == k);
                        }
                        if final(self).keys().contains(k) {
                            let j = final(self).keys().index_of(k);
                            assert(final(self).keys()[j] == k);
                            if j < old(self).keys().len() {
                                assert(old(self).keys()[j] == k);
                            }
                        }
                    }
                    assert forall|k: Seq<u8>| #[trigger]
                        final(self).map().contains_key(k) implies final(self).map()[k] == old(
                        self,
                    ).map().insert(k0, value)[k] by {
                        let j = final(self).keys().index_of(k);
                        assert(final(self).keys()[j] == k);
                        if j < old(self).keys().len() {
                            assert(old(self).keys()[j] == k);
                            assert(old(self).map()[old(self).keys()[j]] == old(self).values()[j]);
                        }
                    }
                    assert(final(self).map() =~= old(self).map().insert(k0, value));
                }
            },
        }
    }

    /// Takes `key` and its value out of the map.  The other entries keep
    /// their order.
    pub fn remove(&mut self, key: &Vec<u8>) -> (res: Option<V>)
        requires
            old(self).wf(),
        ensures
            final(self).wf(),
            final(self).map() == old(self).map().remove(key@),
            res is Some <==> old(self).map().contains_key(key@),
            res matches Some(v) ==> v == old(self).map()[key@],
            final(self).keys() == without(old(self).keys(), key@),
    {
        proof {
            old(self).lemma_entries();
        }
        match self.position(key) {
            Some(i) => {
                self.keys.remove(i);
                let value = self.values.remove(i);
                proof {
                    let before = old(self).keys();
                    let after = final(self).keys();
                    assert(after =~= before.remove(i as int));
                    assert forall|a: int, b: int|
                        0 <= a < after.len() && 0 <= b < after.len() && a != b implies after[a]
                        != after[b] by {
                        let a0 = if a < i { a } else { a + 1 };
                        let b0 = if b < i { b } else { b + 1 };
                        assert(after[a] == before[a0]);
                        assert(after[b] == before[b0]);
                    }
                    final(self).lemma_entries();
                    assert forall|k: Seq<u8>|
                        final(self).map().contains_key(k) <==> #[trigger] old(self).map().remove(
                            key@,
                        ).contains_key(k) by {
                        if after.contains(k) {
                            let j = after.index_of(k);
                            assert(after[j] == k);
                            let j0 = if j < i { j } else { j + 1 };
                            assert(before[j0] == k);
                        }
                        if before.contains(k) && k != key@ {
                            let j0 = before.index_of(k);
                            assert(before[j0] == k);
                            let j = if j0 < i { j0 } else { j0 - 1 };
                            assert(after[j] == k);
                        }
                    }
                    assert forall|k: Seq<u8>| #[trigger]
                        final(self).map().contains_key(k) implies final(self).map()[k] == old(
                        self,
                    ).map().remove(key@)[k] by {
                        let j = after.index_of(k);
                        assert(after[j] == k);
                        let j0 = if j < i { j } else { j + 1 };
                        assert(before[j0] == k);
                        assert(old(self).map()[before[j0]] == old(self).values()[j0]);
                    }
                    assert(final(self).map() =~= old(self).map().remove(key@));
                    lemma_without_remove(before, i as int);
                }
                Some(value)
            },
            None => {
                proof {
                    assert(final(self).map() =~= old(self).map().remove(key@));
                    lemma_without_absent(old(self).keys(), key@);
                }
                None
            },
        }
    }
}

/// A finite set of key material.
pub type KeySet = KeyMap<()>;

} // verus!
