//! An ordered keyspace held in memory: byte-string keys, each with one
//! byte-string value, kept in key order.

use crate::codec::copy_bytes;
use crate::connection::{in_range, key_in_range, key_range_view, Range};
use crate::select::{
    lemma_ordered_at, lemma_select_none, lemma_select_step, limited, ordered, position, select,
};
use crate::sorted::{lemma_in_map, SortedMap};
use vstd::prelude::*;

verus! {

/// The filter that keeps the pairs with a key in `range`.
pub open spec fn range_filter(range: Range<Seq<u8>>) -> spec_fn((Seq<u8>, Seq<u8>)) -> bool {
    |pair: (Seq<u8>, Seq<u8>)| in_range(range, pair.0)
}

/// The mathematical content of the result of a scan.
pub open spec fn scanned_view(found: Vec<(Vec<u8>, Vec<u8>)>) -> Seq<(Seq<u8>, Seq<u8>)> {
    Seq::new(found@.len(), |i: int| (found@[i].0@, found@[i].1@))
}

/// What `compare_and_swap` reports.
pub enum Swap {
    /// The key held what was expected, and now holds the new value.
    Swapped,
    /// The key held something else, which is attached; nothing was changed.
    Conflict(Option<Vec<u8>>),
}

/// An ordered keyspace.
pub struct Tree {
    inner: SortedMap<Vec<u8>, Vec<u8>>,
}

/// What a key holds in a map of byte strings: its value, or nothing.
pub open spec fn lookup(m: Map<Seq<u8>, Seq<u8>>, k: Seq<u8>) -> Option<Seq<u8>> {
    if m.contains_key(k) {
        Some(m[k])
    } else {
        None
    }
}

/// The map `m` with `k` holding `v`, or nothing if `v` is `None`.
pub open spec fn assign(m: Map<Seq<u8>, Seq<u8>>, k: Seq<u8>, v: Option<Seq<u8>>) -> Map<
    Seq<u8>,
    Seq<u8>,
> {
    match v {
        Some(v) => m.insert(k, v),
        None => m.remove(k),
    }
}

/// The view of an optional byte string.
pub open spec fn option_view(v: Option<Vec<u8>>) -> Option<Seq<u8>> {
    match v {
        Some(v) => Some(v@),
        None => None,
    }
}

/// The view of an optional borrowed byte string.
pub open spec fn option_ref_view(v: Option<&Vec<u8>>) -> Option<Seq<u8>> {
    match v {
        Some(v) => Some(v@),
        None => None,
    }
}

impl View for Tree {
    type V = Map<Seq<u8>, Seq<u8>>;

    /// The value of each key.
    closed spec fn view(&self) -> Map<Seq<u8>, Seq<u8>> {
        Map::new(|k: Seq<u8>| self.inner@.contains_key(k), |k: Seq<u8>| self.inner@[k]@)
    }
}

impl Tree {
    /// The invariant of the tree: its keys are strictly increasing.
    pub closed spec fn wf(&self) -> bool {
        self.inner.wf()
    }

    /// The keys of the tree in their order, each with its value.
    pub closed spec fn pairs(&self) -> Seq<(Seq<u8>, Seq<u8>)> {
        Seq::new(self.inner.pairs().len(), |i: int| (self.inner.pairs()[i].0, self.inner.pairs()[i].1@))
    }

    /// A tree without keys.
    pub fn new() -> (tree: Tree)
        ensures
            tree.wf(),
            tree@ == Map::<Seq<u8>, Seq<u8>>::empty(),
    {
        let tree = Tree { inner: SortedMap::new() };
        assert(tree@ =~= Map::<Seq<u8>, Seq<u8>>::empty());
        tree
    }

    /// The number of keys.
    pub fn len(&self) -> (n: usize)
        ensures
            n == self.pairs().len(),
    {
        self.inner.len()
    }

    /// The pairs of the tree are its keys in increasing order, each with
    /// the value that it holds.
    pub proof fn lemma_pairs(&self)
        requires
            self.wf(),
        ensures
            forall|i: int|
                0 <= i < self.pairs().len() ==> self@.contains_key((#[trigger] self.pairs()[i]).0)
                    && self@[self.pairs()[i].0] == self.pairs()[i].1,
            forall|i: int, j: int|
                0 <= i < j < self.pairs().len() ==> crate::order::less(
                    (#[trigger] self.pairs()[i]).0,
                    (#[trigger] self.pairs()[j]).0,
                ),
            forall|k: Seq<u8>|
                self@.contains_key(k) ==> exists|i: int|
                    0 <= i < self.pairs().len() && (#[trigger] self.pairs()[i]).0 == k,
    {
        let inner = self.inner.pairs();
        assert forall|i: int| 0 <= i < self.pairs().len() implies self@.contains_key(
            (#[trigger] self.pairs()[i]).0,
        ) && self@[self.pairs()[i].0] == self.pairs()[i].1 by {
            lemma_in_map::<Vec<u8>, Vec<u8>>(inner, i);
        }
        assert forall|i: int, j: int| 0 <= i < j < self.pairs().len() implies crate::order::less(
            (#[trigger] self.pairs()[i]).0,
            (#[trigger] self.pairs()[j]).0,
        ) by {
            assert(self.pairs()[i].0 == inner[i].0);
            assert(self.pairs()[j].0 == inner[j].0);
        }
        assert forall|k: Seq<u8>| self@.contains_key(k) implies exists|i: int|
            0 <= i < self.pairs().len() && (#[trigger] self.pairs()[i]).0 == k by {
            let i = crate::sorted::lemma_from_map::<Vec<u8>, Vec<u8>>(inner, k);
            assert(self.pairs()[i].0 == k);
        }
    }

    /// The pairs with a key in `range`, in increasing order of their keys
    /// or, if `descending`, in decreasing order, and at most `limit` of
    /// them.
    pub fn scan(&self, range: &Range<Vec<u8>>, descending: bool, limit: Option<u32>) -> (found: Vec<
        (Vec<u8>, Vec<u8>),
    >)
        requires
            self.wf(),
        ensures
            scanned_view(found) == select(
                self.pairs(),
                range_filter(key_range_view(*range)),
                descending,
                limit,
            ),
    {
        let ghost all = ordered(self.pairs(), descending);
        let ghost keep = range_filter(key_range_view(*range));
        let n = self.inner.len();
        let mut found: Vec<(Vec<u8>, Vec<u8>)> = Vec::new();
        let mut i: usize = 0;
        proof {
            lemma_select_none(all, keep, limit);
        }
        while i < n
            invariant
                n == self.inner.pairs().len(),
                i <= n,
                all == ordered(self.pairs(), descending),
                all.len() == n,
                keep == range_filter(key_range_view(*range)),
                scanned_view(found) == limited(all.take(i as int).filter(keep), limit),
            decreases n - i,
        {
            let p = position(n, i, descending);
            let key = self.inner.key_at(p);
            let value = self.inner.value_at(p);
            proof {
                lemma_ordered_at(self.pairs(), descending, i as int);
                lemma_select_step(all, keep, limit, i as int);
            }
            let room = match limit {
                Some(most) => found.len() < most as usize,
                None => true,
            };
            if room && key_in_range(range, key.as_slice()) {
                let ghost before = scanned_view(found);
                found.push((copy_bytes(key.as_slice()), copy_bytes(value.as_slice())));
                assert(scanned_view(found) =~= before.push(all[i as int]));
            }
            i += 1;
        }
        assert(all.take(n as int) =~= all);
        found
    }

    /// The value of `key`, if it has one.
    pub fn get(&self, key: &[u8]) -> (value: Option<Vec<u8>>)
        requires
            self.wf(),
        ensures
            option_view(value) == lookup(self@, key@),
    {
        let owned_key = copy_bytes(key);
        match self.inner.get(&owned_key) {
            Some(stored) => Some(copy_bytes(stored.as_slice())),
            None => None,
        }
    }

    /// Whether `key` has a value.
    pub fn contains_key(&self, key: &[u8]) -> (found: bool)
        requires
            self.wf(),
        ensures
            found == self@.contains_key(key@),
    {
        let owned_key = copy_bytes(key);
        self.inner.contains_key(&owned_key)
    }

    /// Gives `key` the value `value`, in place of any it had.
    pub fn put(&mut self, key: &[u8], value: Vec<u8>)
        requires
            old(self).wf(),
        ensures
            final(self).wf(),
            final(self)@ == old(self)@.insert(key@, value@),
    {
        self.inner.insert(copy_bytes(key), value);
        assert(self@ =~= old(self)@.insert(key@, value@));
    }

    /// Removes `key`, and returns the value it had.
    pub fn remove(&mut self, key: &[u8]) -> (value: Option<Vec<u8>>)
        requires
            old(self).wf(),
        ensures
            final(self).wf(),
            final(self)@ == old(self)@.remove(key@),
            option_view(value) == lookup(old(self)@, key@),
    {
        let owned_key = copy_bytes(key);
        let value = self.inner.remove(&owned_key);
        assert(self@ =~= old(self)@.remove(key@));
        value
    }

    /// Replaces what `key` holds by `new`, provided it holds `expected`;
    /// `None` stands for a key without a value. Otherwise nothing changes
    /// and the conflict carries what the key holds.
    pub fn compare_and_swap(
        &mut self,
        key: &[u8],
        expected: Option<&Vec<u8>>,
        new: Option<Vec<u8>>,
    ) -> (outcome: Swap)
        requires
            old(self).wf(),
        ensures
            final(self).wf(),
            match outcome {
                Swap::Swapped => {
                    &&& lookup(old(self)@, key@) == option_ref_view(expected)
                    &&& final(self)@ == assign(old(self)@, key@, option_view(new))
                },
                Swap::Conflict(current) => {
                    &&& lookup(old(self)@, key@) != option_ref_view(expected)
                    &&& option_view(current) == lookup(old(self)@, key@)
                    &&& final(self)@ == old(self)@
                },
            },
    {
        let current = self.get(key);
        let matches = match (&current, expected) {
            (Some(held), Some(wanted)) => crate::order::bytes_equal(
                held.as_slice(),
                wanted.as_slice(),
            ),
            (None, None) => true,
            _ => false,
        };
        if !matches {
            return Swap::Conflict(current);
        }
        match new {
            Some(value) => {
                self.put(key, value);
            },
            None => {
                self.remove(key);
            },
        }
        Swap::Swapped
    }
}

} // verus!
