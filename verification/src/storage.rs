//! The storage of the key-value store: named trees, and the schedule of the
//! keys that expire.

pub mod kv;

use crate::assoc::AssocList;
use crate::database::kv::TreeKey;
use crate::keyvalue::Timestamp;
use crate::storage::kv::{schedule_after, ExpirationUpdate, Schedule};
use crate::text::str_equal;
use crate::tree::{assign, lookup, option_ref_view, option_view, Swap, Tree};
use vstd::prelude::*;
use vstd::string::StringExecFns;

verus! {

/// What a set of named trees holds: a value for some pairs of a tree's name
/// and a key.
pub type Keyspace = Map<(Seq<char>, Seq<u8>), Seq<u8>>;

/// What `key` of the tree `tree` holds in `space`.
pub open spec fn held(space: Keyspace, tree: Seq<char>, key: Seq<u8>) -> Option<Seq<u8>> {
    if space.contains_key((tree, key)) {
        Some(space[(tree, key)])
    } else {
        None
    }
}

/// `space` with `key` of `tree` holding `v`, or nothing if `v` is `None`.
pub open spec fn held_assign(space: Keyspace, tree: Seq<char>, key: Seq<u8>, v: Option<Seq<u8>>) -> Keyspace {
    match v {
        Some(v) => space.insert((tree, key), v),
        None => space.remove((tree, key)),
    }
}

/// A set of trees, each with its name. A tree that was never written to is
/// empty.
pub struct Roots {
    trees: Vec<(String, Tree)>,
}

impl View for Roots {
    type V = Keyspace;

    closed spec fn view(&self) -> Keyspace {
        Map::new(
            |p: (Seq<char>, Seq<u8>)| self.has_tree(p.0) && self.trees@[self.index_of(p.0)].1@.contains_key(p.1),
            |p: (Seq<char>, Seq<u8>)| self.trees@[self.index_of(p.0)].1@[p.1],
        )
    }
}

impl Roots {
    /// Whether a tree of this name was created.
    pub closed spec fn has_tree(&self, name: Seq<char>) -> bool {
        exists|i: int| 0 <= i < self.trees@.len() && #[trigger] self.trees@[i].0@ == name
    }

    /// The index of the tree of this name.
    closed spec fn index_of(&self, name: Seq<char>) -> int {
        choose|i: int| 0 <= i < self.trees@.len() && #[trigger] self.trees@[i].0@ == name
    }

    /// The invariant: every tree is well formed and no name occurs twice.
    pub closed spec fn wf(&self) -> bool {
        &&& forall|i: int| 0 <= i < self.trees@.len() ==> (#[trigger] self.trees@[i]).1.wf()
        &&& forall|i: int, j: int|
            0 <= i < self.trees@.len() && 0 <= j < self.trees@.len() && i != j ==> (
            #[trigger] self.trees@[i]).0@ != (#[trigger] self.trees@[j]).0@
    }

    /// No trees.
    pub fn new() -> (roots: Roots)
        ensures
            roots.wf(),
            roots@ == Map::<(Seq<char>, Seq<u8>), Seq<u8>>::empty(),
    {
        let roots = Roots { trees: Vec::new() };
        assert(roots@ =~= Map::<(Seq<char>, Seq<u8>), Seq<u8>>::empty());
        roots
    }

    /// With distinct names, the tree of a name is found at one index only.
    proof fn lemma_index(&self, i: int)
        requires
            self.wf(),
            0 <= i < self.trees@.len(),
        ensures
            self.has_tree(self.trees@[i].0@),
            self.index_of(self.trees@[i].0@) == i,
    {
        assert(self.trees@[i].0@ == self.trees@[i].0@);
    }

    /// The index of the tree named `name`, if it was created.
    fn find(&self, name: &str) -> (r: Option<usize>)
        requires
            self.wf(),
        ensures
            match r {
                Some(i) => i < self.trees@.len() && self.trees@[i as int].0@ == name@
                    && self.index_of(name@) == i && self.has_tree(name@),
                None => !self.has_tree(name@),
            },
    {
        let mut i: usize = 0;
        while i < self.trees.len()
            invariant
                self.wf(),
                i <= self.trees@.len(),
                forall|j: int| 0 <= j < i ==> (#[trigger] self.trees@[j]).0@ != name@,
            decreases self.trees@.len() - i,
        {
            if str_equal(self.trees[i].0.as_str(), name) {
                proof {
                    self.lemma_index(i as int);
                }
                return Some(i);
            }
            i += 1;
        }
        None
    }

    /// The index of the tree named `name`, which is created if need be.
    fn find_or_create(&mut self, name: &str) -> (i: usize)
        requires
            old(self).wf(),
        ensures
            final(self).wf(),
            final(self)@ == old(self)@,
            i < final(self).trees@.len(),
            final(self).trees@[i as int].0@ == name@,
            final(self).index_of(name@) == i,
            final(self).has_tree(name@),
    {
        match self.find(name) {
            Some(i) => i,
            None => {
                let ghost before = *self;
                let i = self.trees.len();
                self.trees.push((String::from_str(name), Tree::new()));
                proof {
                    assert forall|a: int, b: int|
                        0 <= a < self.trees@.len() && 0 <= b < self.trees@.len() && a != b implies (
                    #[trigger] self.trees@[a]).0@ != (#[trigger] self.trees@[b]).0@ by {
                        if a < i && b < i {
                            assert(self.trees@[a] == before.trees@[a]);
                            assert(self.trees@[b] == before.trees@[b]);
                        } else if a < i {
                            assert(self.trees@[a] == before.trees@[a]);
                        } else {
                            assert(self.trees@[b] == before.trees@[b]);
                        }
                    }
                    assert forall|a: int| 0 <= a < self.trees@.len() implies (
                    #[trigger] self.trees@[a]).1.wf() by {
                        if a < i {
                            assert(self.trees@[a] == before.trees@[a]);
                        }
                    }
                    self.lemma_index(i as int);
                    assert forall|p: (Seq<char>, Seq<u8>)| self@.contains_key(p)
                        <==> before@.contains_key(p) by {
                        if before.has_tree(p.0) {
                            let j = before.index_of(p.0);
                            assert(self.trees@[j] == before.trees@[j]);
                            self.lemma_index(j);
                        }
                        if self.has_tree(p.0) {
                            let j = self.index_of(p.0);
                            if j < i {
                                assert(self.trees@[j] == before.trees@[j]);
                                before.lemma_index(j);
                            }
                        }
                    }
                    assert forall|p: (Seq<char>, Seq<u8>)| self@.contains_key(p) implies self@[p]
                        == before@[p] by {
                        let j = before.index_of(p.0);
                        assert(self.trees@[j] == before.trees@[j]);
                        self.lemma_index(j);
                    }
                    assert(self@ =~= before@);
                }
                i
            },
        }
    }

    /// What the tree at index `i` holds is what the keyspace holds under its
    /// name.
    proof fn lemma_tree_at(&self, i: int, key: Seq<u8>)
        requires
            self.wf(),
            0 <= i < self.trees@.len(),
        ensures
            held(self@, self.trees@[i].0@, key) == lookup(self.trees@[i].1@, key),
    {
        self.lemma_index(i);
    }

    /// After the tree at index `i` alone has changed, the keyspace has
    /// changed under its name alone.
    proof fn lemma_changed_at(&self, before: Roots, i: int, key: Seq<u8>, v: Option<Seq<u8>>)
        requires
            before.wf(),
            0 <= i < before.trees@.len(),
            self.trees@.len() == before.trees@.len(),
            forall|j: int| 0 <= j < before.trees@.len() && j != i ==> self.trees@[j] == before.trees@[j],
            self.trees@[i].0 == before.trees@[i].0,
            self.trees@[i].1.wf(),
            self.trees@[i].1@ == assign(before.trees@[i].1@, key, v),
        ensures
            self.wf(),
            self@ == held_assign(before@, before.trees@[i].0@, key, v),
    {
        let name = before.trees@[i].0@;
        assert forall|a: int| 0 <= a < self.trees@.len() implies (#[trigger] self.trees@[a]).1.wf() by {
            if a != i {
                assert(self.trees@[a] == before.trees@[a]);
            }
        }
        assert forall|a: int| 0 <= a < self.trees@.len() implies (#[trigger] self.trees@[a]).0@
            == before.trees@[a].0@ by {
            if a != i {
                assert(self.trees@[a] == before.trees@[a]);
            }
        }
        assert(self.wf());
        let expected = held_assign(before@, name, key, v);
        assert forall|p: (Seq<char>, Seq<u8>)| self@.contains_key(p) <==> expected.contains_key(
            p,
        ) by {
            if before.has_tree(p.0) {
                let j = before.index_of(p.0);
                assert(self.trees@[j].0@ == p.0);
                self.lemma_index(j);
                before.lemma_index(j);
            }
            if self.has_tree(p.0) {
                let j = self.index_of(p.0);
                assert(before.trees@[j].0@ == p.0);
                before.lemma_index(j);
                self.lemma_index(j);
            }
            self.lemma_index(i);
            before.lemma_index(i);
        }
        assert forall|p: (Seq<char>, Seq<u8>)| self@.contains_key(p) implies self@[p]
            == expected[p] by {
            let j = self.index_of(p.0);
            assert(before.trees@[j].0@ == p.0);
            before.lemma_index(j);
            self.lemma_index(j);
            self.lemma_index(i);
            before.lemma_index(i);
        }
        assert(self@ =~= expected);
    }

    /// What `key` of the tree `tree` holds.
    pub fn get(&self, tree: &str, key: &[u8]) -> (value: Option<Vec<u8>>)
        requires
            self.wf(),
        ensures
            option_view(value) == held(self@, tree@, key@),
    {
        match self.find(tree) {
            Some(i) => {
                proof {
                    self.lemma_tree_at(i as int, key@);
                }
                self.trees[i].1.get(key)
            },
            None => None,
        }
    }

    /// Gives `key` of the tree `tree` the value `value`.
    pub fn put(&mut self, tree: &str, key: &[u8], value: Vec<u8>)
        requires
            old(self).wf(),
        ensures
            final(self).wf(),
            final(self)@ == old(self)@.insert((tree@, key@), value@),
    {
        let i = self.find_or_create(tree);
        let ghost before = *self;
        self.trees[i].1.put(key, value);
        proof {
            self.lemma_changed_at(before, i as int, key@, Some(value@));
        }
    }

    /// Removes `key` from the tree `tree`, and returns what it held.
    pub fn remove(&mut self, tree: &str, key: &[u8]) -> (value: Option<Vec<u8>>)
        requires
            old(self).wf(),
        ensures
            final(self).wf(),
            final(self)@ == old(self)@.remove((tree@, key@)),
            option_view(value) == held(old(self)@, tree@, key@),
    {
        let i = self.find_or_create(tree);
        let ghost before = *self;
        proof {
            before.lemma_tree_at(i as int, key@);
        }
        let value = self.trees[i].1.remove(key);
        proof {
            self.lemma_changed_at(before, i as int, key@, None);
        }
        value
    }

    /// Replaces what `key` of the tree `tree` holds by `new`, provided it
    /// holds `expected`; `None` stands for a key without a value. Otherwise
    /// nothing changes and the conflict carries what the key holds.
    pub fn compare_and_swap(
        &mut self,
        tree: &str,
        key: &[u8],
        expected: Option<&Vec<u8>>,
        new: Option<Vec<u8>>,
    ) -> (outcome: Swap)
        requires
            old(self).wf(),
        ensures
            final(self).wf(),
            match outcome {
                Swap::Swapped => {
                    &&& held(old(self)@, tree@, key@) == option_ref_view(expected)
                    &&& final(self)@ == held_assign(old(self)@, tree@, key@, option_view(new))
                },
                Swap::Conflict(current) => {
                    &&& held(old(self)@, tree@, key@) != option_ref_view(expected)
                    &&& option_view(current) == held(old(self)@, tree@, key@)
                    &&& final(self)@ == old(self)@
                },
            },
    {
        let i = self.find_or_create(tree);
        let ghost before = *self;
        proof {
            before.lemma_tree_at(i as int, key@);
        }
        let outcome = self.trees[i].1.compare_and_swap(key, expected, new);
        proof {
            match outcome {
                Swap::Swapped => {
                    self.lemma_changed_at(before, i as int, key@, option_view(new));
                },
                Swap::Conflict(_) => {
                    let held_before = before.trees@[i as int].1@;
                    assert(assign(held_before, key@, lookup(held_before, key@)) =~= held_before);
                    self.lemma_changed_at(before, i as int, key@, lookup(before.trees@[i as int].1@, key@));
                    assert(self@ =~= before@);
                },
            }
        }
        outcome
    }
}

/// What the storage holds.
pub struct StorageView {
    /// What the keys of the trees hold.
    pub trees: Keyspace,
    /// When the keys that expire do so.
    pub expirations: Schedule,
}

/// The trees of the key-value store and the schedule of its expiring keys.
pub struct Storage {
    roots: Roots,
    expirations: AssocList<TreeKey, Timestamp>,
}

impl View for Storage {
    type V = StorageView;

    closed spec fn view(&self) -> StorageView {
        StorageView { trees: self.roots@, expirations: self.expirations@ }
    }
}

impl Storage {
    /// The invariant of the structure.
    pub closed spec fn wf(&self) -> bool {
        self.roots.wf() && self.expirations.wf()
    }

    /// The keys that are scheduled, in the order in which they were first
    /// scheduled.
    pub closed spec fn scheduled(&self) -> Seq<(Seq<char>, Seq<char>)> {
        self.expirations.keys()
    }

    /// A storage without trees, where nothing expires.
    pub fn new() -> (storage: Storage)
        ensures
            storage.wf(),
            storage@.trees == Map::<(Seq<char>, Seq<u8>), Seq<u8>>::empty(),
            storage@.expirations == Map::<(Seq<char>, Seq<char>), Timestamp>::empty(),
    {
        Storage { roots: Roots::new(), expirations: AssocList::new() }
    }

    /// The trees.
    pub fn roots(&self) -> (roots: &Roots)
        requires
            self.wf(),
        ensures
            roots.wf(),
            roots@ == self@.trees,
    {
        &self.roots
    }

    /// What `key` of the tree `tree` holds.
    pub fn get(&self, tree: &str, key: &[u8]) -> (value: Option<Vec<u8>>)
        requires
            self.wf(),
        ensures
            option_view(value) == held(self@.trees, tree@, key@),
    {
        self.roots.get(tree, key)
    }

    /// Removes `key` from the tree `tree`, and returns what it held. The
    /// schedule is left as it is.
    pub fn remove(&mut self, tree: &str, key: &[u8]) -> (value: Option<Vec<u8>>)
        requires
            old(self).wf(),
        ensures
            final(self).wf(),
            final(self)@.trees == old(self)@.trees.remove((tree@, key@)),
            final(self)@.expirations == old(self)@.expirations,
            final(self).scheduled() == old(self).scheduled(),
            option_view(value) == held(old(self)@.trees, tree@, key@),
    {
        self.roots.remove(tree, key)
    }

    /// Replaces what `key` of the tree `tree` holds by `new`, provided it
    /// holds `expected`. The schedule is left as it is.
    pub fn compare_and_swap(
        &mut self,
        tree: &str,
        key: &[u8],
        expected: Option<&Vec<u8>>,
        new: Option<Vec<u8>>,
    ) -> (outcome: Swap)
        requires
            old(self).wf(),
        ensures
            final(self).wf(),
            final(self)@.expirations == old(self)@.expirations,
            final(self).scheduled() == old(self).scheduled(),
            match outcome {
                Swap::Swapped => {
                    &&& held(old(self)@.trees, tree@, key@) == option_ref_view(expected)
                    &&& final(self)@.trees == held_assign(
                        old(self)@.trees,
                        tree@,
                        key@,
                        option_view(new),
                    )
                },
                Swap::Conflict(current) => {
                    &&& held(old(self)@.trees, tree@, key@) != option_ref_view(expected)
                    &&& option_view(current) == held(old(self)@.trees, tree@, key@)
                    &&& final(self)@.trees == old(self)@.trees
                },
            },
    {
        self.roots.compare_and_swap(tree, key, expected, new)
    }

    /// The number of keys that are scheduled.
    pub fn scheduled_len(&self) -> (n: usize)
        ensures
            n == self.scheduled().len(),
    {
        self.expirations.len()
    }

    /// The key at position `i` of the schedule, and when it expires.
    pub fn scheduled_at(&self, i: usize) -> (r: (&TreeKey, Timestamp))
        requires
            self.wf(),
            i < self.scheduled().len(),
        ensures
            r.0@ == self.scheduled()[i as int],
            self@.expirations.contains_key(r.0@),
            self@.expirations[r.0@] == r.1,
    {
        (self.expirations.key_at(i), *self.expirations.value_at(i))
    }

    /// The keys that are scheduled are those of the schedule, each once.
    pub proof fn lemma_scheduled(&self)
        requires
            self.wf(),
        ensures
            self.scheduled().no_duplicates(),
            forall|j: int|
                0 <= j < self.scheduled().len() ==> self@.expirations.contains_key(
                    #[trigger] self.scheduled()[j],
                ),
            forall|k: (Seq<char>, Seq<char>)|
                self@.expirations.contains_key(k) ==> exists|j: int|
                    0 <= j < self.scheduled().len() && #[trigger] self.scheduled()[j] == k,
    {
        self.expirations.lemma_keys();
        assert forall|j: int| 0 <= j < self.scheduled().len() implies self@.expirations.contains_key(
            #[trigger] self.scheduled()[j],
        ) by {
            assert(self.scheduled().contains(self.scheduled()[j]));
        }
        assert forall|k: (Seq<char>, Seq<char>)|
            self@.expirations.contains_key(k) implies exists|j: int|
            0 <= j < self.scheduled().len() && #[trigger] self.scheduled()[j] == k by {
            assert(self.scheduled().contains(k));
        }
    }

    /// Applies a change to the schedule: the key expires at the new time,
    /// or never if there is none.
    pub fn update_key_expiration(&mut self, update: ExpirationUpdate)
        requires
            old(self).wf(),
        ensures
            final(self).wf(),
            final(self)@.trees == old(self)@.trees,
            final(self)@.expirations == schedule_after(
                old(self)@.expirations,
                update.tree_key@,
                update.expiration,
            ),
    {
        match update.expiration {
            Some(t) => {
                self.expirations.insert(update.tree_key, t);
            },
            None => {
                self.expirations.remove(&update.tree_key);
            },
        }
    }
}

} // verus!
