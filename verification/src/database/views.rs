//! The indexes of views: what an index holds for given documents, and how
//! it follows a change to one document.

use crate::document::{DocumentId, DocumentView, Header};
use crate::order::{
    compare_bytes, lemma_compare_equal, lemma_compare_flip, lemma_less_irreflexive,
    lemma_less_transitive, less, Comparison,
};
use crate::schema::view::{mappings_view, Emitted, Mapping, Serialized, SerializedView};
use crate::schema::Schema;
use crate::sorted::{lemma_from_map, lemma_in_map, SortKey, SortedMap};
use vstd::prelude::*;

verus! {

/// What identifies a document: the name of its collection, and its id.
pub type DocumentKey = ((Seq<char>, Seq<char>), Seq<u8>);

/// The documents of a database.
pub type Docs = Map<DocumentKey, DocumentView>;

/// What identifies an entry of a view: its key, and the id of the document
/// that it was emitted for.
pub type IndexKey = (Seq<u8>, Seq<u8>);

/// The entries of a view.
pub type Index = Map<IndexKey, SerializedView>;

/// The name of a view: the name of its collection, and its own.
pub type ViewId = ((Seq<char>, Seq<char>), Seq<char>);

/// Whether `pairs` holds the key `k`.
pub open spec fn emits(pairs: Emitted, k: Seq<u8>) -> bool
    decreases pairs.len(),
{
    pairs.len() > 0 && (pairs.last().0 == k || emits(pairs.drop_last(), k))
}

/// The value that `pairs` holds for the key `k`: the last one emitted.
pub open spec fn value_of(pairs: Emitted, k: Seq<u8>) -> Seq<u8>
    decreases pairs.len(),
{
    if pairs.len() == 0 {
        Seq::empty()
    } else if pairs.last().0 == k {
        pairs.last().1
    } else {
        value_of(pairs.drop_last(), k)
    }
}

/// A key that is emitted stands in `pairs`.
pub proof fn lemma_emits_somewhere(pairs: Emitted, k: Seq<u8>) -> (i: int)
    requires
        emits(pairs, k),
    ensures
        0 <= i < pairs.len(),
        pairs[i].0 == k,
    decreases pairs.len(),
{
    if pairs.last().0 == k {
        pairs.len() - 1
    } else {
        lemma_emits_somewhere(pairs.drop_last(), k)
    }
}

/// What the view `view` emits for the document `d`; nothing where its map
/// function fails.
pub open spec fn emitted<S: Schema>(view: ViewId, d: DocumentView) -> Emitted {
    match S::spec_map(view, d) {
        Ok(pairs) => pairs,
        Err(_) => Seq::empty(),
    }
}

/// The entry of a view for the key `k` with the value `value`, emitted for
/// the document `source` at `revision`.
pub open spec fn entry(k: Seq<u8>, value: Seq<u8>, source: Seq<u8>, revision: u64) -> SerializedView {
    SerializedView { source, revision, key: k, value }
}

/// The entries of the view `view` for the documents `docs`: for each
/// document of the view's collection and each key that the map function
/// emits for it, one entry.
pub open spec fn derived<S: Schema>(view: ViewId, docs: Docs) -> Index {
    Map::new(
        |ik: IndexKey|
            docs.contains_key((view.0, ik.1)) && emits(
                emitted::<S>(view, docs[(view.0, ik.1)]),
                ik.0,
            ),
        |ik: IndexKey|
            entry(
                ik.0,
                value_of(emitted::<S>(view, docs[(view.0, ik.1)]), ik.0),
                ik.1,
                docs[(view.0, ik.1)].revision,
            ),
    )
}

/// The index `base` with an entry for each of `pairs`, emitted for the
/// document `source` at `revision`.
pub open spec fn with_pairs(base: Index, source: Seq<u8>, revision: u64, pairs: Emitted) -> Index
    decreases pairs.len(),
{
    if pairs.len() == 0 {
        base
    } else {
        with_pairs(base, source, revision, pairs.drop_last()).insert(
            (pairs.last().0, source),
            entry(pairs.last().0, pairs.last().1, source, revision),
        )
    }
}

/// The index `base` without the entries of `source` for the keys of
/// `pairs`.
pub open spec fn without_pairs(base: Index, source: Seq<u8>, pairs: Emitted) -> Index
    decreases pairs.len(),
{
    if pairs.len() == 0 {
        base
    } else {
        without_pairs(base, source, pairs.drop_last()).remove((pairs.last().0, source))
    }
}

/// What an index with added pairs holds.
pub proof fn lemma_with_pairs(
    base: Index,
    source: Seq<u8>,
    revision: u64,
    pairs: Emitted,
    ik: IndexKey,
)
    ensures
        with_pairs(base, source, revision, pairs).contains_key(ik) <==> (base.contains_key(ik) || (
        ik.1 == source && emits(pairs, ik.0))),
        with_pairs(base, source, revision, pairs).contains_key(ik) ==> with_pairs(
            base,
            source,
            revision,
            pairs,
        )[ik] == (if ik.1 == source && emits(pairs, ik.0) {
            entry(ik.0, value_of(pairs, ik.0), source, revision)
        } else {
            base[ik]
        }),
    decreases pairs.len(),
{
    if pairs.len() > 0 {
        lemma_with_pairs(base, source, revision, pairs.drop_last(), ik);
    }
}

/// What an index without some pairs holds.
pub proof fn lemma_without_pairs(base: Index, source: Seq<u8>, pairs: Emitted, ik: IndexKey)
    ensures
        without_pairs(base, source, pairs).contains_key(ik) <==> (base.contains_key(ik) && !(ik.1
            == source && emits(pairs, ik.0))),
        without_pairs(base, source, pairs).contains_key(ik) ==> without_pairs(
            base,
            source,
            pairs,
        )[ik] == base[ik],
    decreases pairs.len(),
{
    if pairs.len() > 0 {
        lemma_without_pairs(base, source, pairs.drop_last(), ik);
    }
}

/// Taking the entries of a document out of the index of a view gives the
/// index for the documents without that document.
pub proof fn lemma_derived_without<S: Schema>(view: ViewId, docs: Docs, id: Seq<u8>)
    requires
        docs.contains_key((view.0, id)),
    ensures
        without_pairs(derived::<S>(view, docs), id, emitted::<S>(view, docs[(view.0, id)]))
            == derived::<S>(view, docs.remove((view.0, id))),
{
    let base = derived::<S>(view, docs);
    let pairs = emitted::<S>(view, docs[(view.0, id)]);
    let left = without_pairs(base, id, pairs);
    let right = derived::<S>(view, docs.remove((view.0, id)));
    assert forall|ik: IndexKey| left.contains_key(ik) <==> right.contains_key(ik) by {
        lemma_without_pairs(base, id, pairs, ik);
    }
    assert forall|ik: IndexKey| left.contains_key(ik) implies left[ik] == right[ik] by {
        lemma_without_pairs(base, id, pairs, ik);
    }
    assert(left =~= right);
}

/// Adding the entries of a document to the index of a view that holds none
/// for it gives the index for the documents with that document.
pub proof fn lemma_derived_with<S: Schema>(view: ViewId, docs: Docs, d: DocumentView)
    requires
        !docs.contains_key((view.0, d.id)),
    ensures
        with_pairs(derived::<S>(view, docs), d.id, d.revision, emitted::<S>(view, d)) == derived::<
            S,
        >(view, docs.insert((view.0, d.id), d)),
{
    let base = derived::<S>(view, docs);
    let pairs = emitted::<S>(view, d);
    let left = with_pairs(base, d.id, d.revision, pairs);
    let right = derived::<S>(view, docs.insert((view.0, d.id), d));
    assert forall|ik: IndexKey| left.contains_key(ik) <==> right.contains_key(ik) by {
        lemma_with_pairs(base, d.id, d.revision, pairs, ik);
    }
    assert forall|ik: IndexKey| left.contains_key(ik) implies left[ik] == right[ik] by {
        lemma_with_pairs(base, d.id, d.revision, pairs, ik);
    }
    assert(left =~= right);
}

/// A change to a document of another collection leaves the index of a view
/// as it is.
pub proof fn lemma_derived_elsewhere<S: Schema>(view: ViewId, docs: Docs, other: Docs)
    requires
        forall|id: Seq<u8>|
            #![trigger docs.contains_key((view.0, id))]
            docs.contains_key((view.0, id)) == other.contains_key((view.0, id)) && (
            docs.contains_key((view.0, id)) ==> docs[(view.0, id)] == other[(view.0, id)]),
    ensures
        derived::<S>(view, docs) == derived::<S>(view, other),
{
    let left = derived::<S>(view, docs);
    let right = derived::<S>(view, other);
    assert forall|ik: IndexKey| left.contains_key(ik) <==> right.contains_key(ik) by {
        assert(docs.contains_key((view.0, ik.1)) == other.contains_key((view.0, ik.1)));
    }
    assert forall|ik: IndexKey| left.contains_key(ik) implies left[ik] == right[ik] by {
        assert(docs.contains_key((view.0, ik.1)));
    }
    assert(left =~= right);
}

/// Whether the key `k` belongs, in `index`, to a document other than
/// `source`.
pub open spec fn key_taken(index: Index, k: Seq<u8>, source: Seq<u8>) -> bool {
    exists|other: Seq<u8>| other != source && #[trigger] index.contains_key((k, other))
}

/// The position in `pairs`, from `from` on, of the first key that belongs
/// in `index` to a document other than `source`.
pub open spec fn first_taken(index: Index, source: Seq<u8>, pairs: Emitted, from: int) -> Option<int>
    decreases pairs.len() - from,
{
    if from < 0 || from >= pairs.len() {
        None
    } else if key_taken(index, pairs[from].0, source) {
        Some(from)
    } else {
        first_taken(index, source, pairs, from + 1)
    }
}

/// Whether no key of `index` belongs to two documents.
pub open spec fn keys_unique(index: Index) -> bool {
    forall|k: Seq<u8>, a: Seq<u8>, b: Seq<u8>|
        #[trigger] index.contains_key((k, a)) && #[trigger] index.contains_key((k, b)) ==> a == b
}

/// The key of an entry of an index.
#[derive(Debug, PartialEq, Eq)]
pub struct EntryKey {
    /// The key of the entry.
    pub key: Vec<u8>,
    /// The id of the document that the entry was emitted for.
    pub source: Vec<u8>,
}

impl View for EntryKey {
    type V = (Seq<u8>, Seq<u8>);

    open spec fn view(&self) -> (Seq<u8>, Seq<u8>) {
        (self.key@, self.source@)
    }
}

impl SortKey for EntryKey {
    /// By the key, and for the same key by the id of the document.
    open spec fn before(a: (Seq<u8>, Seq<u8>), b: (Seq<u8>, Seq<u8>)) -> bool {
        less(a.0, b.0) || (a.0 == b.0 && less(a.1, b.1))
    }

    proof fn lemma_irreflexive(a: (Seq<u8>, Seq<u8>)) {
        lemma_less_irreflexive(a.0);
        lemma_less_irreflexive(a.1);
    }

    proof fn lemma_transitive(a: (Seq<u8>, Seq<u8>), b: (Seq<u8>, Seq<u8>), c: (Seq<u8>, Seq<u8>)) {
        if less(a.0, b.0) && less(b.0, c.0) {
            lemma_less_transitive(a.0, b.0, c.0);
        }
        if a.0 == b.0 && b.0 == c.0 {
            lemma_less_irreflexive(a.0);
            lemma_less_transitive(a.1, b.1, c.1);
        }
    }

    fn compare(&self, other: &Self) -> (c: Comparison) {
        proof {
            lemma_compare_equal(self.key@, other.key@);
            lemma_compare_flip(self.key@, other.key@);
            lemma_compare_equal(self.source@, other.source@);
            lemma_compare_flip(self.source@, other.source@);
        }
        match compare_bytes(self.key.as_slice(), other.key.as_slice()) {
            Comparison::Less => Comparison::Less,
            Comparison::Greater => Comparison::Greater,
            Comparison::Equal => compare_bytes(self.source.as_slice(), other.source.as_slice()),
        }
    }
}

/// The index of a view as it is stored.
pub type StoredIndex = SortedMap<EntryKey, Serialized>;

/// Whether each entry of a stored index stands under its own key and the
/// id of its own document.
pub open spec fn entries_fit(m: Map<(Seq<u8>, Seq<u8>), Serialized>) -> bool {
    forall|ik: IndexKey| #[trigger]
        m.contains_key(ik) ==> m[ik].key@ == ik.0 && m[ik].source.id@ == ik.1
            && m[ik].source.id.wf()
}

/// The mathematical content of a stored index.
pub open spec fn index_view(m: Map<(Seq<u8>, Seq<u8>), Serialized>) -> Index {
    Map::new(|ik: IndexKey| m.contains_key(ik), |ik: IndexKey| m[ik]@)
}

/// Takes the entries of the document `source` for the keys of `pairs` out
/// of an index.
pub fn remove_entries(index: &mut StoredIndex, source: &DocumentId, pairs: &Vec<Mapping>)
    requires
        old(index).wf(),
        entries_fit(old(index)@),
    ensures
        final(index).wf(),
        entries_fit(final(index)@),
        index_view(final(index)@) == without_pairs(
            index_view(old(index)@),
            source@,
            mappings_view(*pairs),
        ),
{
    let ghost all = mappings_view(*pairs);
    let ghost base = index_view(index@);
    let mut i: usize = 0;
    assert(all.take(0) =~= Seq::<(Seq<u8>, Seq<u8>)>::empty());
    while i < pairs.len()
        invariant
            index.wf(),
            entries_fit(index@),
            i <= pairs@.len(),
            all == mappings_view(*pairs),
            index_view(index@) == without_pairs(base, source@, all.take(i as int)),
        decreases pairs@.len() - i,
    {
        let key = EntryKey {
            key: crate::codec::copy_bytes(pairs[i].key.as_slice()),
            source: crate::codec::copy_bytes(source.as_bytes()),
        };
        let ghost before = index@;
        index.remove(&key);
        proof {
            assert(all.take(i + 1).drop_last() =~= all.take(i as int));
            assert(all.take(i + 1).last() == all[i as int]);
            assert(index_view(index@) =~= index_view(before).remove((all[i as int].0, source@)));
        }
        i += 1;
    }
    assert(all.take(pairs@.len() as int) =~= all);
}

/// Puts an entry for each of `pairs`, emitted for the document with the
/// header `header`, into an index.
pub fn insert_entries(index: &mut StoredIndex, header: &Header, pairs: &Vec<Mapping>)
    requires
        old(index).wf(),
        entries_fit(old(index)@),
        header.id.wf(),
    ensures
        final(index).wf(),
        entries_fit(final(index)@),
        index_view(final(index)@) == with_pairs(
            index_view(old(index)@),
            header.id@,
            header.revision.id,
            mappings_view(*pairs),
        ),
{
    let ghost all = mappings_view(*pairs);
    let ghost base = index_view(index@);
    let mut i: usize = 0;
    assert(all.take(0) =~= Seq::<(Seq<u8>, Seq<u8>)>::empty());
    while i < pairs.len()
        invariant
            index.wf(),
            entries_fit(index@),
            i <= pairs@.len(),
            header.id.wf(),
            all == mappings_view(*pairs),
            index_view(index@) == with_pairs(
                base,
                header.id@,
                header.revision.id,
                all.take(i as int),
            ),
        decreases pairs@.len() - i,
    {
        let key = EntryKey {
            key: crate::codec::copy_bytes(pairs[i].key.as_slice()),
            source: crate::codec::copy_bytes(header.id.as_bytes()),
        };
        let stored = Serialized {
            source: header.clone(),
            key: crate::codec::copy_bytes(pairs[i].key.as_slice()),
            value: crate::codec::copy_bytes(pairs[i].value.as_slice()),
        };
        let ghost before = index@;
        index.insert(key, stored);
        proof {
            assert(all.take(i + 1).drop_last() =~= all.take(i as int));
            assert(all.take(i + 1).last() == all[i as int]);
            assert(index_view(index@) =~= index_view(before).insert(
                (all[i as int].0, header.id@),
                entry(all[i as int].0, all[i as int].1, header.id@, header.revision.id),
            ));
        }
        i += 1;
    }
    assert(all.take(pairs@.len() as int) =~= all);
}

/// Whether the key `key` belongs, in the index, to a document other than
/// `source`.
pub fn is_key_taken(index: &StoredIndex, key: &[u8], source: &DocumentId) -> (taken: bool)
    requires
        index.wf(),
    ensures
        taken == key_taken(index_view(index@), key@, source@),
{
    let mut i: usize = 0;
    while i < index.len()
        invariant
            index.wf(),
            i <= index.pairs().len(),
            forall|j: int|
                0 <= j < i ==> !((#[trigger] index.pairs()[j]).0.0 == key@ && index.pairs()[j].0.1
                    != source@),
        decreases index.pairs().len() - i,
    {
        let entry_key = index.key_at(i);
        if crate::order::bytes_equal(entry_key.key.as_slice(), key) && !crate::order::bytes_equal(
            entry_key.source.as_slice(),
            source.as_bytes(),
        ) {
            proof {
                lemma_in_map::<EntryKey, Serialized>(index.pairs(), i as int);
                assert(index_view(index@).contains_key((key@, index.pairs()[i as int].0.1)));
            }
            return true;
        }
        i += 1;
    }
    proof {
        if key_taken(index_view(index@), key@, source@) {
            let other = choose|other: Seq<u8>|
                other != source@ && #[trigger] index_view(index@).contains_key((key@, other));
            let j = lemma_from_map::<EntryKey, Serialized>(index.pairs(), (key@, other));
        }
    }
    false
}

/// The position in `pairs` of the first key that belongs, in the index, to
/// a document other than `source`.
pub fn find_taken(index: &StoredIndex, source: &DocumentId, pairs: &Vec<Mapping>) -> (r: Option<
    usize,
>)
    requires
        index.wf(),
    ensures
        match r {
            Some(i) => first_taken(index_view(index@), source@, mappings_view(*pairs), 0) == Some(
                i as int,
            ) && i < pairs@.len(),
            None => first_taken(index_view(index@), source@, mappings_view(*pairs), 0) is None,
        },
{
    let ghost all = mappings_view(*pairs);
    let ghost view = index_view(index@);
    let mut i: usize = 0;
    while i < pairs.len()
        invariant
            index.wf(),
            i <= pairs@.len(),
            all == mappings_view(*pairs),
            view == index_view(index@),
            first_taken(view, source@, all, 0) == first_taken(view, source@, all, i as int),
        decreases pairs@.len() - i,
    {
        if is_key_taken(index, pairs[i].key.as_slice(), source) {
            return Some(i);
        }
        i += 1;
    }
    None
}

} // verus!
