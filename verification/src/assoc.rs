//! A map held as a list of keys with their values, for keys that can only be
//! compared for equality.

use vstd::prelude::*;

verus! {

/// A key whose equality can be decided, in agreement with its view.
pub trait KeyEq: View + Sized {
    /// Whether the two keys have the same view.
    fn key_eq(&self, other: &Self) -> (r: bool)
        ensures
            r == (self@ == other@),
    ;
}

impl KeyEq for String {
    fn key_eq(&self, other: &Self) -> (r: bool) {
        crate::text::str_equal(self.as_str(), other.as_str())
    }
}

impl KeyEq for u64 {
    fn key_eq(&self, other: &Self) -> (r: bool) {
        *self == *other
    }
}

impl KeyEq for u32 {
    fn key_eq(&self, other: &Self) -> (r: bool) {
        *self == *other
    }
}

impl KeyEq for Vec<u8> {
    fn key_eq(&self, other: &Self) -> (r: bool) {
        crate::order::bytes_equal(self.as_slice(), other.as_slice())
    }
}

/// A finite map from keys to values.
pub struct AssocList<K: KeyEq, V> {
    entries: Vec<(K, V)>,
}

impl<K: KeyEq, V> View for AssocList<K, V> {
    type V = Map<K::V, V>;

    closed spec fn view(&self) -> Map<K::V, V> {
        Map::new(|k: K::V| self.has(k), |k: K::V| self.entries@[self.index_of(k)].1)
    }
}

impl<K: KeyEq, V> AssocList<K, V> {
    /// Whether some entry has the key `k`.
    closed spec fn has(&self, k: K::V) -> bool {
        exists|i: int| 0 <= i < self.entries@.len() && (#[trigger] self.entries@[i]).0@ == k
    }

    /// The index of the entry with the key `k`.
    closed spec fn index_of(&self, k: K::V) -> int {
        choose|i: int| 0 <= i < self.entries@.len() && (#[trigger] self.entries@[i]).0@ == k
    }

    /// The invariant: no key occurs twice.
    pub closed spec fn wf(&self) -> bool {
        forall|i: int, j: int|
            0 <= i < self.entries@.len() && 0 <= j < self.entries@.len() && i != j ==> (
            #[trigger] self.entries@[i]).0@ != (#[trigger] self.entries@[j]).0@
    }

    /// The keys in the order in which the list holds them.
    pub closed spec fn keys(&self) -> Seq<K::V> {
        Seq::new(self.entries@.len(), |i: int| self.entries@[i].0@)
    }

    /// The keys are distinct, and they are the keys of the map.
    pub proof fn lemma_keys(&self)
        requires
            self.wf(),
        ensures
            self.keys().no_duplicates(),
            forall|k: K::V| self@.contains_key(k) <==> self.keys().contains(k),
            self.keys().len() == self@.dom().len(),
            self@.dom().finite(),
    {
        let keys = self.keys();
        assert forall|k: K::V| self@.contains_key(k) <==> keys.contains(k) by {
            if self@.contains_key(k) {
                assert(keys[self.index_of(k)] == k);
            }
            if keys.contains(k) {
                let i = choose|i: int| 0 <= i < keys.len() && keys[i] == k;
                assert(self.entries@[i].0@ == k);
            }
        }
        assert(keys.to_set() =~= self@.dom());
        keys.unique_seq_to_set();
    }

    /// Each key of the list is a key of the map, and each key of the map
    /// stands somewhere in the list.
    pub proof fn lemma_key_positions(&self)
        requires
            self.wf(),
        ensures
            self.keys().no_duplicates(),
            forall|j: int|
                0 <= j < self.keys().len() ==> self@.contains_key(#[trigger] self.keys()[j]),
            forall|k: K::V|
                self@.contains_key(k) ==> exists|j: int|
                    0 <= j < self.keys().len() && #[trigger] self.keys()[j] == k,
    {
        self.lemma_keys();
        assert forall|j: int| 0 <= j < self.keys().len() implies self@.contains_key(
            #[trigger] self.keys()[j],
        ) by {
            assert(self.keys().contains(self.keys()[j]));
        }
        assert forall|k: K::V| self@.contains_key(k) implies exists|j: int|
            0 <= j < self.keys().len() && #[trigger] self.keys()[j] == k by {
            assert(self.keys().contains(k));
        }
    }

    /// The empty map.
    pub fn new() -> (list: Self)
        ensures
            list.wf(),
            list@ == Map::<K::V, V>::empty(),
            list.keys() == Seq::<K::V>::empty(),
    {
        let list = AssocList { entries: Vec::new() };
        assert(list@ =~= Map::<K::V, V>::empty());
        assert(list.keys() =~= Seq::<K::V>::empty());
        list
    }

    /// The number of keys.
    pub fn len(&self) -> (n: usize)
        ensures
            n == self.keys().len(),
    {
        self.entries.len()
    }

    /// The key at position `i`.
    pub fn key_at(&self, i: usize) -> (k: &K)
        requires
            i < self.keys().len(),
        ensures
            k@ == self.keys()[i as int],
    {
        &self.entries[i].0
    }

    /// The value at position `i`.
    pub fn value_at(&self, i: usize) -> (v: &V)
        requires
            self.wf(),
            i < self.keys().len(),
        ensures
            self@.contains_key(self.keys()[i as int]),
            *v == self@[self.keys()[i as int]],
    {
        proof {
            self.lemma_at(i as int);
        }
        &self.entries[i].1
    }

    /// The entry at an index is the one that the map holds under its key.
    proof fn lemma_at(&self, i: int)
        requires
            self.wf(),
            0 <= i < self.entries@.len(),
        ensures
            self.has(self.entries@[i].0@),
            self.index_of(self.entries@[i].0@) == i,
            self@.contains_key(self.entries@[i].0@),
            self@[self.entries@[i].0@] == self.entries@[i].1,
    {
        assert(self.entries@[i].0@ == self.entries@[i].0@);
    }

    /// The index of the entry with the key `key`.
    fn find(&self, key: &K) -> (r: Option<usize>)
        requires
            self.wf(),
        ensures
            match r {
                Some(i) => i < self.entries@.len() && self.entries@[i as int].0@ == key@
                    && self@.contains_key(key@) && self@[key@] == self.entries@[i as int].1,
                None => !self@.contains_key(key@),
            },
    {
        let mut i: usize = 0;
        while i < self.entries.len()
            invariant
                self.wf(),
                i <= self.entries@.len(),
                forall|j: int| 0 <= j < i ==> (#[trigger] self.entries@[j]).0@ != key@,
            decreases self.entries@.len() - i,
        {
            if self.entries[i].0.key_eq(key) {
                proof {
                    self.lemma_at(i as int);
                }
                return Some(i);
            }
            i += 1;
        }
        None
    }

    /// Whether `key` has a value.
    pub fn contains_key(&self, key: &K) -> (r: bool)
        requires
            self.wf(),
        ensures
            r == self@.contains_key(key@),
    {
        self.find(key).is_some()
    }

    /// The value of `key`.
    pub fn get(&self, key: &K) -> (r: Option<&V>)
        requires
            self.wf(),
        ensures
            match r {
                Some(v) => self@.contains_key(key@) && *v == self@[key@],
                None => !self@.contains_key(key@),
            },
    {
        match self.find(key) {
            Some(i) => Some(&self.entries[i].1),
            None => None,
        }
    }

    /// The value of `key`, to be changed in place.
    pub fn get_mut(&mut self, key: &K) -> (r: Option<&mut V>)
        requires
            old(self).wf(),
        ensures
            final(self).wf(),
            final(self).keys() == old(self).keys(),
            match r {
                Some(v) => {
                    &&& old(self)@.contains_key(key@)
                    &&& *v == old(self)@[key@]
                    &&& final(self)@ == old(self)@.insert(key@, *final(v))
                },
                None => !old(self)@.contains_key(key@) && final(self)@ == old(self)@,
            },
    {
        match self.find(key) {
            Some(i) => {
                proof {
                    let before = *self;
                    assert forall|after: Self|
                        after.entries@ == before.entries@.update(
                            i as int,
                            (before.entries@[i as int].0, after.entries@[i as int].1),
                        ) implies #[trigger] after.wf() && after.keys() == before.keys() && after@
                        == before@.insert(key@, after.entries@[i as int].1) by {
                        after.lemma_replaced(before, i as int);
                    }
                }
                Some(&mut self.entries[i].1)
            },
            None => None,
        }
    }

    /// A list that differs from `before` in the value at index `i` alone
    /// holds the same keys, and the new value under the key at `i`.
    proof fn lemma_replaced(&self, before: Self, i: int)
        requires
            before.wf(),
            0 <= i < before.entries@.len(),
            self.entries@ == before.entries@.update(i, (before.entries@[i].0, self.entries@[i].1)),
        ensures
            self.wf(),
            self.keys() == before.keys(),
            self@ == before@.insert(before.entries@[i].0@, self.entries@[i].1),
    {
        assert(self.keys() =~= before.keys());
        assert forall|j: int| 0 <= j < self.entries@.len() implies (#[trigger] self.entries@[j]).0@
            == before.entries@[j].0@ by {}
        let k = before.entries@[i].0@;
        let expected = before@.insert(k, self.entries@[i].1);
        assert forall|k2: K::V| self@.contains_key(k2) <==> expected.contains_key(k2) by {
            if self.has(k2) {
                let j = self.index_of(k2);
                before.lemma_at(j);
            }
            if before.has(k2) {
                let j = before.index_of(k2);
                self.lemma_at(j);
            }
            before.lemma_at(i);
            self.lemma_at(i);
        }
        assert forall|k2: K::V| self@.contains_key(k2) implies self@[k2] == expected[k2] by {
            let j = self.index_of(k2);
            before.lemma_at(j);
            self.lemma_at(j);
        }
        assert(self@ =~= expected);
    }

    /// A list that is `before` with one entry more, under a key that `before`
    /// lacks, holds that entry besides those of `before`.
    proof fn lemma_pushed(&self, before: Self, key: K, value: V)
        requires
            before.wf(),
            !before@.contains_key(key@),
            self.entries@ == before.entries@.push((key, value)),
        ensures
            self.wf(),
            self.keys() == before.keys().push(key@),
            self@ == before@.insert(key@, value),
    {
        let n = before.entries@.len() as int;
        assert(self.keys() =~= before.keys().push(key@));
        assert forall|i: int, j: int|
            0 <= i < self.entries@.len() && 0 <= j < self.entries@.len() && i != j implies (
        #[trigger] self.entries@[i]).0@ != (#[trigger] self.entries@[j]).0@ by {
            if i < n {
                before.lemma_at(i);
            }
            if j < n {
                before.lemma_at(j);
            }
        }
        let expected = before@.insert(key@, value);
        assert forall|k2: K::V| self@.contains_key(k2) <==> expected.contains_key(k2) by {
            if self.has(k2) {
                let j = self.index_of(k2);
                if j < n {
                    before.lemma_at(j);
                }
            }
            if before.has(k2) {
                let j = before.index_of(k2);
                self.lemma_at(j);
            }
            self.lemma_at(n);
        }
        assert forall|k2: K::V| self@.contains_key(k2) implies self@[k2] == expected[k2] by {
            let j = self.index_of(k2);
            self.lemma_at(j);
            if j < n {
                before.lemma_at(j);
            }
        }
        assert(self@ =~= expected);
    }

    /// A list that is `before` without the entry at index `i` holds the
    /// entries of `before` but that one.
    proof fn lemma_removed(&self, before: Self, i: int)
        requires
            before.wf(),
            0 <= i < before.entries@.len(),
            self.entries@ == before.entries@.remove(i),
        ensures
            self.wf(),
            self.keys() == before.keys().remove(i),
            self@ == before@.remove(before.entries@[i].0@),
    {
        assert(self.keys() =~= before.keys().remove(i));
        assert forall|a: int, b: int|
            0 <= a < self.entries@.len() && 0 <= b < self.entries@.len() && a != b implies (
        #[trigger] self.entries@[a]).0@ != (#[trigger] self.entries@[b]).0@ by {
            let a2 = if a < i { a } else { a + 1 };
            let b2 = if b < i { b } else { b + 1 };
            assert(self.entries@[a] == before.entries@[a2]);
            assert(self.entries@[b] == before.entries@[b2]);
        }
        let k = before.entries@[i].0@;
        let expected = before@.remove(k);
        assert forall|k2: K::V| self@.contains_key(k2) <==> expected.contains_key(k2) by {
            if self.has(k2) {
                let j = self.index_of(k2);
                let j2 = if j < i { j } else { j + 1 };
                assert(self.entries@[j] == before.entries@[j2]);
                before.lemma_at(j2);
                before.lemma_at(i);
            }
            if before.has(k2) && k2 != k {
                let j = before.index_of(k2);
                let j2 = if j < i { j } else { j - 1 };
                assert(self.entries@[j2] == before.entries@[j]);
                self.lemma_at(j2);
            }
        }
        assert forall|k2: K::V| self@.contains_key(k2) implies self@[k2] == expected[k2] by {
            let j = self.index_of(k2);
            let j2 = if j < i { j } else { j + 1 };
            assert(self.entries@[j] == before.entries@[j2]);
            self.lemma_at(j);
            before.lemma_at(j2);
        }
        assert(self@ =~= expected);
    }

    /// Gives `key` the value `value`, and returns the value it had. A new
    /// key comes last in the order of the keys; a key that was there keeps
    /// its place.
    pub fn insert(&mut self, key: K, value: V) -> (previous: Option<V>)
        requires
            old(self).wf(),
        ensures
            final(self).wf(),
            final(self)@ == old(self)@.insert(key@, value),
            match previous {
                Some(v) => old(self)@.contains_key(key@) && v == old(self)@[key@]
                    && final(self).keys() == old(self).keys(),
                None => !old(self)@.contains_key(key@) && final(self).keys() == old(
                    self,
                ).keys().push(key@),
            },
    {
        let ghost before = *self;
        match self.find(&key) {
            Some(i) => {
                let removed = self.entries.remove(i);
                let ghost middle = *self;
                proof {
                    middle.lemma_removed(before, i as int);
                }
                self.entries.insert(i, (key, value));
                proof {
                    assert(self.entries@ =~= before.entries@.update(i as int, (key, value)));
                    assert(self.keys() =~= before.keys()) by {
                        assert forall|j: int| 0 <= j < self.entries@.len() implies self.keys()[j]
                            == before.keys()[j] by {}
                    }
                    assert forall|a: int, b: int|
                        0 <= a < self.entries@.len() && 0 <= b < self.entries@.len() && a
                            != b implies (#[trigger] self.entries@[a]).0@ != (
                    #[trigger] self.entries@[b]).0@ by {
                        assert(self.entries@[a].0@ == before.entries@[a].0@);
                        assert(self.entries@[b].0@ == before.entries@[b].0@);
                    }
                    let expected = before@.insert(key@, value);
                    assert forall|k2: K::V| self@.contains_key(k2) <==> expected.contains_key(
                        k2,
                    ) by {
                        if self.has(k2) {
                            let j = self.index_of(k2);
                            assert(before.entries@[j].0@ == k2);
                            before.lemma_at(j);
                        }
                        if before.has(k2) {
                            let j = before.index_of(k2);
                            assert(self.entries@[j].0@ == k2);
                            self.lemma_at(j);
                        }
                        self.lemma_at(i as int);
                    }
                    assert forall|k2: K::V| self@.contains_key(k2) implies self@[k2]
                        == expected[k2] by {
                        let j = self.index_of(k2);
                        self.lemma_at(j);
                        assert(before.entries@[j].0@ == k2);
                        before.lemma_at(j);
                    }
                    assert(self@ =~= expected);
                }
                Some(removed.1)
            },
            None => {
                self.entries.push((key, value));
                proof {
                    self.lemma_pushed(before, key, value);
                }
                None
            },
        }
    }

    /// Removes `key`, and returns the value it had. The other keys keep
    /// their order.
    pub fn remove(&mut self, key: &K) -> (previous: Option<V>)
        requires
            old(self).wf(),
        ensures
            final(self).wf(),
            final(self)@ == old(self)@.remove(key@),
            match previous {
                Some(v) => old(self)@.contains_key(key@) && v == old(self)@[key@]
                    && final(self).keys() == old(self).keys().remove(
                    old(self).keys().index_of(key@),
                ),
                None => !old(self)@.contains_key(key@) && final(self).keys() == old(self).keys(),
            },
    {
        let ghost before = *self;
        match self.find(key) {
            Some(i) => {
                let removed = self.entries.remove(i);
                proof {
                    self.lemma_removed(before, i as int);
                    before.lemma_keys();
                    assert(before.keys()[i as int] == key@);
                    assert(before.keys().index_of(key@) == i);
                }
                Some(removed.1)
            },
            None => {
                assert(self@.remove(key@) =~= self@);
                None
            },
        }
    }
}

} // verus!
