//! A map kept in the order of its keys.

use crate::order::Comparison;
use vstd::prelude::*;

verus! {

/// A key with a strict total order that can be decided.
pub trait SortKey: View + Sized {
    /// Whether `a` comes strictly before `b`.
    spec fn before(a: Self::V, b: Self::V) -> bool;

    /// No key comes before itself.
    proof fn lemma_irreflexive(a: Self::V)
        ensures
            !Self::before(a, a),
    ;

    /// The order is transitive.
    proof fn lemma_transitive(a: Self::V, b: Self::V, c: Self::V)
        requires
            Self::before(a, b),
            Self::before(b, c),
        ensures
            Self::before(a, c),
    ;

    /// Compares two keys.
    fn compare(&self, other: &Self) -> (c: Comparison)
        ensures
            match c {
                Comparison::Less => Self::before(self@, other@),
                Comparison::Equal => self@ == other@,
                Comparison::Greater => Self::before(other@, self@),
            },
    ;
}

impl SortKey for Vec<u8> {
    open spec fn before(a: Seq<u8>, b: Seq<u8>) -> bool {
        crate::order::less(a, b)
    }

    proof fn lemma_irreflexive(a: Seq<u8>) {
        crate::order::lemma_less_irreflexive(a);
    }

    proof fn lemma_transitive(a: Seq<u8>, b: Seq<u8>, c: Seq<u8>) {
        crate::order::lemma_less_transitive(a, b, c);
    }

    fn compare(&self, other: &Self) -> (c: Comparison) {
        proof {
            crate::order::lemma_compare_equal(self@, other@);
            crate::order::lemma_compare_flip(self@, other@);
        }
        crate::order::compare_bytes(self.as_slice(), other.as_slice())
    }
}

/// Whether the keys of `s` are strictly increasing.
pub open spec fn increasing<K: SortKey, T>(s: Seq<(K::V, T)>) -> bool {
    forall|i: int, j: int| 0 <= i < j < s.len() ==> K::before(#[trigger] s[i].0, #[trigger] s[j].0)
}

/// Whether `k` is the key of some pair of `s`.
pub open spec fn holds_key<K: SortKey, T>(s: Seq<(K::V, T)>, k: K::V) -> bool {
    exists|i: int| 0 <= i < s.len() && (#[trigger] s[i]).0 == k
}

/// An index at which `s` holds the key `k`.
pub open spec fn place<K: SortKey, T>(s: Seq<(K::V, T)>, k: K::V) -> int {
    choose|i: int| 0 <= i < s.len() && (#[trigger] s[i]).0 == k
}

/// The map from each key of `s` to its value.
pub open spec fn as_map<K: SortKey, T>(s: Seq<(K::V, T)>) -> Map<K::V, T> {
    Map::new(|k: K::V| holds_key::<K, T>(s, k), |k: K::V| s[place::<K, T>(s, k)].1)
}

/// In an increasing sequence a key stands at one index only.
pub proof fn lemma_one_place<K: SortKey, T>(s: Seq<(K::V, T)>, i: int, j: int)
    requires
        increasing::<K, T>(s),
        0 <= i < s.len(),
        0 <= j < s.len(),
        s[i].0 == s[j].0,
    ensures
        i == j,
{
    K::lemma_irreflexive(s[i].0);
}

/// The map of an increasing sequence holds each of its pairs.
pub proof fn lemma_in_map<K: SortKey, T>(s: Seq<(K::V, T)>, i: int)
    requires
        increasing::<K, T>(s),
        0 <= i < s.len(),
    ensures
        as_map::<K, T>(s).contains_key(s[i].0),
        as_map::<K, T>(s)[s[i].0] == s[i].1,
{
    assert(holds_key::<K, T>(s, s[i].0));
    lemma_one_place::<K, T>(s, i, place::<K, T>(s, s[i].0));
}

/// Every key of the map of a sequence stands somewhere in the sequence.
pub proof fn lemma_from_map<K: SortKey, T>(s: Seq<(K::V, T)>, k: K::V) -> (i: int)
    requires
        increasing::<K, T>(s),
        as_map::<K, T>(s).contains_key(k),
    ensures
        0 <= i < s.len(),
        s[i].0 == k,
        s[i].1 == as_map::<K, T>(s)[k],
{
    place::<K, T>(s, k)
}

/// Replacing the value at an index replaces it in the map.
pub proof fn lemma_replace<K: SortKey, T>(s: Seq<(K::V, T)>, pos: int, v: T)
    requires
        increasing::<K, T>(s),
        0 <= pos < s.len(),
    ensures
        increasing::<K, T>(s.update(pos, (s[pos].0, v))),
        as_map::<K, T>(s.update(pos, (s[pos].0, v))) == as_map::<K, T>(s).insert(s[pos].0, v),
{
    let k = s[pos].0;
    let t = s.update(pos, (k, v));
    assert forall|i: int, j: int| 0 <= i < j < t.len() implies K::before(
        #[trigger] t[i].0,
        #[trigger] t[j].0,
    ) by {
        assert(t[i].0 == s[i].0 && t[j].0 == s[j].0);
    }
    assert forall|k2: K::V| holds_key::<K, T>(t, k2) <==> (k2 == k || holds_key::<K, T>(
        s,
        k2,
    )) by {
        if holds_key::<K, T>(t, k2) {
            let i = place::<K, T>(t, k2);
            assert(s[i].0 == k2);
        }
        if holds_key::<K, T>(s, k2) {
            let i = place::<K, T>(s, k2);
            assert(t[i].0 == k2);
        }
        if k2 == k {
            assert(t[pos].0 == k2);
        }
    }
    assert forall|k2: K::V| holds_key::<K, T>(t, k2) implies as_map::<K, T>(t)[k2] == as_map::<
        K,
        T,
    >(s).insert(k, v)[k2] by {
        let i = place::<K, T>(t, k2);
        lemma_in_map::<K, T>(t, i);
        if k2 != k {
            assert(s[i].0 == k2);
            lemma_in_map::<K, T>(s, i);
        } else {
            lemma_one_place::<K, T>(t, i, pos);
        }
    }
    assert(as_map::<K, T>(t) =~= as_map::<K, T>(s).insert(k, v));
}

/// Inserting a pair at the place its key belongs adds it to the map.
pub proof fn lemma_insert_at<K: SortKey, T>(s: Seq<(K::V, T)>, pos: int, k: K::V, v: T)
    requires
        increasing::<K, T>(s),
        0 <= pos <= s.len(),
        forall|i: int| 0 <= i < pos ==> K::before((#[trigger] s[i]).0, k),
        forall|i: int| pos <= i < s.len() ==> K::before(k, (#[trigger] s[i]).0),
    ensures
        increasing::<K, T>(s.insert(pos, (k, v))),
        as_map::<K, T>(s.insert(pos, (k, v))) == as_map::<K, T>(s).insert(k, v),
{
    let t = s.insert(pos, (k, v));
    assert forall|i: int, j: int| 0 <= i < j < t.len() implies K::before(
        #[trigger] t[i].0,
        #[trigger] t[j].0,
    ) by {
        if i < pos && j > pos {
            assert(t[i] == s[i] && t[j] == s[j - 1]);
        } else if i < pos && j < pos {
            assert(t[i] == s[i] && t[j] == s[j]);
        } else if i > pos {
            assert(t[i] == s[i - 1] && t[j] == s[j - 1]);
        } else if i == pos {
            assert(t[j] == s[j - 1]);
        } else {
            assert(t[i] == s[i]);
        }
    }
    assert forall|k2: K::V| holds_key::<K, T>(t, k2) <==> (k2 == k || holds_key::<K, T>(
        s,
        k2,
    )) by {
        if holds_key::<K, T>(t, k2) && k2 != k {
            let i = place::<K, T>(t, k2);
            if i < pos {
                assert(s[i].0 == k2);
            } else {
                assert(s[i - 1].0 == k2);
            }
        }
        if holds_key::<K, T>(s, k2) {
            let i = place::<K, T>(s, k2);
            if i < pos {
                assert(t[i].0 == k2);
            } else {
                assert(t[i + 1].0 == k2);
            }
        }
        if k2 == k {
            assert(t[pos].0 == k2);
        }
    }
    assert forall|k2: K::V| holds_key::<K, T>(t, k2) implies as_map::<K, T>(t)[k2] == as_map::<
        K,
        T,
    >(s).insert(k, v)[k2] by {
        let i = place::<K, T>(t, k2);
        lemma_in_map::<K, T>(t, i);
        if k2 != k {
            if i < pos {
                assert(s[i] == t[i]);
                lemma_in_map::<K, T>(s, i);
            } else {
                assert(s[i - 1] == t[i]);
                lemma_in_map::<K, T>(s, i - 1);
            }
        } else {
            lemma_one_place::<K, T>(t, i, pos);
        }
    }
    assert(as_map::<K, T>(t) =~= as_map::<K, T>(s).insert(k, v));
}

/// Removing the pair at an index removes its key from the map.
pub proof fn lemma_remove_at<K: SortKey, T>(s: Seq<(K::V, T)>, pos: int)
    requires
        increasing::<K, T>(s),
        0 <= pos < s.len(),
    ensures
        increasing::<K, T>(s.remove(pos)),
        as_map::<K, T>(s.remove(pos)) == as_map::<K, T>(s).remove(s[pos].0),
{
    let k = s[pos].0;
    let t = s.remove(pos);
    assert forall|i: int, j: int| 0 <= i < j < t.len() implies K::before(
        #[trigger] t[i].0,
        #[trigger] t[j].0,
    ) by {
        let i2 = if i < pos { i } else { i + 1 };
        let j2 = if j < pos { j } else { j + 1 };
        assert(t[i] == s[i2] && t[j] == s[j2]);
    }
    assert forall|k2: K::V| holds_key::<K, T>(t, k2) <==> (k2 != k && holds_key::<K, T>(
        s,
        k2,
    )) by {
        if holds_key::<K, T>(t, k2) {
            let i = place::<K, T>(t, k2);
            let i2 = if i < pos { i } else { i + 1 };
            assert(s[i2].0 == k2);
            if k2 == k {
                lemma_one_place::<K, T>(s, i2, pos);
            }
        }
        if holds_key::<K, T>(s, k2) && k2 != k {
            let i = place::<K, T>(s, k2);
            if i < pos {
                assert(t[i].0 == k2);
            } else {
                assert(t[i - 1].0 == k2);
            }
        }
    }
    assert forall|k2: K::V| holds_key::<K, T>(t, k2) implies as_map::<K, T>(t)[k2] == as_map::<
        K,
        T,
    >(s)[k2] by {
        let i = place::<K, T>(t, k2);
        lemma_in_map::<K, T>(t, i);
        let i2 = if i < pos { i } else { i + 1 };
        assert(s[i2] == t[i]);
        lemma_in_map::<K, T>(s, i2);
    }
    assert(as_map::<K, T>(t) =~= as_map::<K, T>(s).remove(k));
}

/// A map whose keys are kept in their order.
pub struct SortedMap<K: SortKey, T> {
    entries: Vec<(K, T)>,
}

impl<K: SortKey, T> View for SortedMap<K, T> {
    type V = Map<K::V, T>;

    /// The value of each key.
    open spec fn view(&self) -> Map<K::V, T> {
        as_map::<K, T>(self.pairs())
    }
}

impl<K: SortKey, T> SortedMap<K, T> {
    /// The pairs of the map in the order of their keys.
    pub closed spec fn pairs(&self) -> Seq<(K::V, T)> {
        Seq::new(self.entries@.len(), |i: int| (self.entries@[i].0@, self.entries@[i].1))
    }

    /// The invariant of the map: its keys are strictly increasing.
    pub open spec fn wf(&self) -> bool {
        increasing::<K, T>(self.pairs())
    }

    /// The map without keys.
    pub fn new() -> (map: Self)
        ensures
            map.wf(),
            map@ == Map::<K::V, T>::empty(),
            map.pairs() == Seq::<(K::V, T)>::empty(),
    {
        let map = SortedMap { entries: Vec::new() };
        assert(map.pairs() =~= Seq::<(K::V, T)>::empty());
        assert(map@ =~= Map::<K::V, T>::empty());
        map
    }

    /// The number of keys.
    pub fn len(&self) -> (n: usize)
        ensures
            n == self.pairs().len(),
    {
        self.entries.len()
    }

    /// The key at position `i` of the order.
    pub fn key_at(&self, i: usize) -> (k: &K)
        requires
            i < self.pairs().len(),
        ensures
            k@ == self.pairs()[i as int].0,
    {
        &self.entries[i].0
    }

    /// The value at position `i` of the order.
    pub fn value_at(&self, i: usize) -> (v: &T)
        requires
            i < self.pairs().len(),
        ensures
            *v == self.pairs()[i as int].1,
    {
        &self.entries[i].1
    }

    /// The index at which `key` stands or would be inserted, and whether it
    /// stands there.
    fn locate(&self, key: &K) -> (r: (usize, bool))
        requires
            self.wf(),
        ensures
            r.0 <= self.pairs().len(),
            forall|i: int| 0 <= i < r.0 ==> K::before((#[trigger] self.pairs()[i]).0, key@),
            forall|i: int|
                r.0 <= i < self.pairs().len() && !r.1 ==> K::before(
                    key@,
                    (#[trigger] self.pairs()[i]).0,
                ),
            r.1 ==> r.0 < self.pairs().len() && self.pairs()[r.0 as int].0 == key@,
            r.1 <==> self@.contains_key(key@),
    {
        let mut i: usize = 0;
        while i < self.entries.len()
            invariant
                self.wf(),
                i <= self.pairs().len(),
                self.pairs().len() == self.entries@.len(),
                forall|j: int| 0 <= j < i ==> K::before((#[trigger] self.pairs()[j]).0, key@),
            decreases self.entries@.len() - i,
        {
            let c = self.entries[i].0.compare(key);
            match c {
                Comparison::Less => {},
                Comparison::Equal => {
                    proof {
                        lemma_in_map::<K, T>(self.pairs(), i as int);
                    }
                    return (i, true);
                },
                Comparison::Greater => {
                    proof {
                        self.lemma_absent(key@, i as int);
                    }
                    return (i, false);
                },
            }
            i += 1;
        }
        proof {
            self.lemma_absent(key@, i as int);
        }
        (i, false)
    }

    /// A key that falls between the pairs before `pos` and those from `pos`
    /// on is not in the map.
    proof fn lemma_absent(&self, key: K::V, pos: int)
        requires
            self.wf(),
            0 <= pos <= self.pairs().len(),
            forall|j: int| 0 <= j < pos ==> K::before((#[trigger] self.pairs()[j]).0, key),
            pos < self.pairs().len() ==> K::before(key, self.pairs()[pos].0),
        ensures
            !self@.contains_key(key),
            forall|i: int|
                pos <= i < self.pairs().len() ==> K::before(key, (#[trigger] self.pairs()[i]).0),
    {
        let s = self.pairs();
        assert forall|i: int| pos <= i < s.len() implies K::before(key, (#[trigger] s[i]).0) by {
            if i > pos {
                K::lemma_transitive(key, s[pos].0, s[i].0);
            }
        }
        if holds_key::<K, T>(s, key) {
            let i = place::<K, T>(s, key);
            K::lemma_irreflexive(key);
        }
    }

    /// The value of `key`, if it has one.
    pub fn get(&self, key: &K) -> (value: Option<&T>)
        requires
            self.wf(),
        ensures
            match value {
                Some(v) => self@.contains_key(key@) && *v == self@[key@],
                None => !self@.contains_key(key@),
            },
    {
        let (pos, found) = self.locate(key);
        if found {
            proof {
                lemma_in_map::<K, T>(self.pairs(), pos as int);
            }
            Some(&self.entries[pos].1)
        } else {
            None
        }
    }

    /// Whether `key` has a value.
    pub fn contains_key(&self, key: &K) -> (found: bool)
        requires
            self.wf(),
        ensures
            found == self@.contains_key(key@),
    {
        let (_, found) = self.locate(key);
        found
    }

    /// Gives `key` the value `value`, and returns the value it had.
    pub fn insert(&mut self, key: K, value: T) -> (previous: Option<T>)
        requires
            old(self).wf(),
        ensures
            final(self).wf(),
            final(self)@ == old(self)@.insert(key@, value),
            match previous {
                Some(v) => old(self)@.contains_key(key@) && v == old(self)@[key@],
                None => !old(self)@.contains_key(key@),
            },
    {
        let (pos, found) = self.locate(&key);
        let ghost before = self.pairs();
        if found {
            let removed = self.entries.remove(pos);
            self.entries.insert(pos, (key, value));
            proof {
                lemma_in_map::<K, T>(before, pos as int);
                lemma_replace::<K, T>(before, pos as int, value);
                assert(self.pairs() =~= before.update(pos as int, (key@, value)));
            }
            Some(removed.1)
        } else {
            self.entries.insert(pos, (key, value));
            proof {
                lemma_insert_at::<K, T>(before, pos as int, key@, value);
                assert(self.pairs() =~= before.insert(pos as int, (key@, value)));
            }
            None
        }
    }

    /// Removes `key`, and returns the value it had.
    pub fn remove(&mut self, key: &K) -> (previous: Option<T>)
        requires
            old(self).wf(),
        ensures
            final(self).wf(),
            final(self)@ == old(self)@.remove(key@),
            match previous {
                Some(v) => old(self)@.contains_key(key@) && v == old(self)@[key@],
                None => !old(self)@.contains_key(key@),
            },
    {
        let (pos, found) = self.locate(key);
        let ghost before = self.pairs();
        if found {
            let removed = self.entries.remove(pos);
            proof {
                lemma_in_map::<K, T>(before, pos as int);
                lemma_remove_at::<K, T>(before, pos as int);
                assert(self.pairs() =~= before.remove(pos as int));
            }
            Some(removed.1)
        } else {
            assert(self@.remove(key@) =~= self@);
            None
        }
    }
}

} // verus!
