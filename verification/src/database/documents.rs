//! The documents of a database, kept together with the indexes of the
//! views of their collections.

use crate::assoc::{AssocList, KeyEq};
use crate::database::views::{
    derived, emits, emitted, entries_fit, find_taken, first_taken, index_view, insert_entries,
    key_taken, keys_unique, lemma_derived_elsewhere, lemma_derived_with, lemma_derived_without,
    lemma_emits_somewhere, remove_entries, DocumentKey, Docs,
    EntryKey, Index, StoredIndex, ViewId,
};
use crate::connection::{
    id_in_range, id_range_view, in_range, key_matches, key_passes, AccessPolicy, QueryKey, Range,
    Sort,
};
use crate::document::{DocumentId, DocumentView, Header, OwnedDocument, Revision, MAX_ID_LENGTH};
use crate::schema::view::{
    reduce_result_view, values_view, MappedSerializedDocuments, MappedSerializedValue,
    Serialized, SerializedView,
};
use crate::select::{
    lemma_ordered_at, lemma_select_complete, lemma_select_none, lemma_select_sound,
    lemma_select_step, limited, ordered, position, select,
};
use crate::sorted::{lemma_from_map, lemma_in_map};
use crate::error::{Error, ErrorView};
use crate::schema::view::{mappings_view, Emitted, Mapping};
use crate::schema::{
    CollectionName, Schema, Schematic, SchematicView, ViewDefinition, ViewName,
};
use crate::keyvalue::Timestamp;
use crate::transaction::{
    results_view, Command, Executed, ExecutedView, Operation, OperationResult,
    OperationResultView, Transaction,
};
use crate::sorted::SortedMap;
use core::marker::PhantomData;
use vstd::prelude::*;

verus! {

/// The documents of one collection, by their ids.
pub type StoredCollection = SortedMap<Vec<u8>, OwnedDocument>;

/// The documents `docs` with the document under `key` replaced by `image`,
/// or taken out where there is no image.
pub open spec fn assign_document(docs: Docs, key: DocumentKey, image: Option<DocumentView>) -> Docs {
    match image {
        Some(d) => docs.insert(key, d),
        None => docs.remove(key),
    }
}

/// The view of an optional document.
pub open spec fn image_view(image: Option<OwnedDocument>) -> Option<DocumentView> {
    match image {
        Some(d) => Some(d@),
        None => None,
    }
}

/// Whether the documents fit the views: the map function of each view
/// succeeds on each document of its collection, and no key of a unique view
/// belongs to two documents.
pub open spec fn docs_valid<S: Schema>(views: Seq<ViewDefinition>, docs: Docs) -> bool {
    forall|i: int|
        0 <= i < views.len() ==> {
            let view = (#[trigger] views[i]).name@;
            &&& forall|id: Seq<u8>| #[trigger]
                docs.contains_key((view.0, id)) ==> S::spec_map(view, docs[(view.0, id)]) is Ok
            &&& views[i].unique ==> keys_unique(derived::<S>(view, docs))
        }
}

/// The id of the document that a command changes.
pub open spec fn command_id(command: Command) -> Seq<u8> {
    match command {
        Command::Insert { id, .. } => id@,
        Command::Update { header, .. } => header.id@,
        Command::Delete { header } => header.id@,
    }
}

/// What a command puts in the place of its document: the new document,
/// or nothing for a deletion. An error where the id is too long, where an
/// insertion finds a document under the id, where an update or a deletion
/// finds none, and where the document is not at the revision that the
/// command was made for.
pub open spec fn decide(docs: Docs, collection: CollectionName, command: Command) -> Result<
    Option<DocumentView>,
    ErrorView,
> {
    let id = command_id(command);
    let key = (collection@, id);
    if id.len() > MAX_ID_LENGTH {
        Err(ErrorView::DocumentIdTooLong)
    } else {
        match command {
            Command::Insert { id: _, contents } => if docs.contains_key(key) {
                Err(ErrorView::DocumentConflict(collection.spec_to_string(), id))
            } else {
                Ok(Some(DocumentView { id, revision: 0, contents: contents@ }))
            },
            Command::Update { header, contents } => if !docs.contains_key(key) {
                Err(ErrorView::DocumentNotFound(collection.spec_to_string(), id))
            } else if docs[key].revision != header.revision.id || header.revision.id == u64::MAX {
                Err(ErrorView::DocumentConflict(collection.spec_to_string(), id))
            } else {
                Ok(
                    Some(
                        DocumentView {
                            id,
                            revision: (header.revision.id + 1) as u64,
                            contents: contents@,
                        },
                    ),
                )
            },
            Command::Delete { header } => if !docs.contains_key(key) {
                Err(ErrorView::DocumentNotFound(collection.spec_to_string(), id))
            } else if docs[key].revision != header.revision.id {
                Err(ErrorView::DocumentConflict(collection.spec_to_string(), id))
            } else {
                Ok(None)
            },
        }
    }
}

/// What the view at position `i` has against `image` as a document of
/// `collection`: the error of its map function, or, for a unique view, the
/// violation by the first key of the image that belongs to another document.
pub open spec fn view_objection<S: Schema>(
    definition: ViewDefinition,
    docs: Docs,
    collection: (Seq<char>, Seq<char>),
    image: DocumentView,
) -> Option<ErrorView> {
    let view = definition.name@;
    if view.0 != collection {
        None
    } else {
        match S::spec_map(view, image) {
            Err(e) => Some(e),
            Ok(pairs) => if definition.unique {
                match first_taken(derived::<S>(view, docs), image.id, pairs, 0) {
                    Some(j) => Some(
                        ErrorView::UniqueKeyViolation(definition.name.spec_to_string(), pairs[j].0),
                    ),
                    None => None,
                }
            } else {
                None
            },
        }
    }
}

/// The first objection of the views from position `from` on.
pub open spec fn views_objection<S: Schema>(
    views: Seq<ViewDefinition>,
    docs: Docs,
    collection: (Seq<char>, Seq<char>),
    image: DocumentView,
    from: int,
) -> Option<ErrorView>
    decreases views.len() - from,
{
    if from < 0 || from >= views.len() {
        None
    } else {
        match view_objection::<S>(views[from], docs, collection, image) {
            Some(e) => Some(e),
            None => views_objection::<S>(views, docs, collection, image, from + 1),
        }
    }
}

/// The documents after an operation, or the error that it fails with: that
/// of a collection that the schema lacks, that of the command, or the
/// objection of a view.
pub open spec fn spec_operation<S: Schema>(schematic: Schematic, docs: Docs, op: Operation) -> Result<
    Docs,
    ErrorView,
> {
    if !schematic.has_collection(op.collection@) {
        Err(ErrorView::CollectionNotFound)
    } else {
        match decide(docs, op.collection, op.command) {
            Err(e) => Err(e),
            Ok(None) => Ok(docs.remove((op.collection@, command_id(op.command)))),
            Ok(Some(image)) => match views_objection::<S>(
                schematic.views(),
                docs,
                op.collection@,
                image,
                0,
            ) {
                Some(e) => Err(e),
                None => Ok(docs.insert((op.collection@, image.id), image)),
            },
        }
    }
}

/// The documents after the operations of `ops` from position `from` on,
/// applied in their order, or the error of the first that fails.
pub open spec fn spec_transaction<S: Schema>(
    schematic: Schematic,
    docs: Docs,
    ops: Seq<Operation>,
    from: int,
) -> Result<Docs, ErrorView>
    decreases ops.len() - from,
{
    if from < 0 || from >= ops.len() {
        Ok(docs)
    } else {
        match spec_operation::<S>(schematic, docs, ops[from]) {
            Err(e) => Err(e),
            Ok(next) => spec_transaction::<S>(schematic, next, ops, from + 1),
        }
    }
}

/// What the operations of a transaction that succeeds report.
pub open spec fn spec_results(ops: Seq<Operation>) -> Seq<OperationResultView> {
    Seq::new(ops.len(), |i: int| result_of(ops[i]))
}

/// Whether the transactions of a log are numbered from 1 on, without a
/// gap.
pub open spec fn numbered(log: Seq<ExecutedView>) -> bool {
    forall|i: int| 0 <= i < log.len() ==> (#[trigger] log[i]).id == i + 1
}

/// The number of transactions that stand before the first with an id from
/// `starting_id` on, in a log of `n` transactions that are numbered from 1
/// on.
pub open spec fn skipped(starting_id: Option<u64>, n: nat) -> int {
    match starting_id {
        Some(id) => if id == 0 {
            0
        } else if id - 1 < n {
            id - 1
        } else {
            n as int
        },
        None => 0,
    }
}

/// In a log that is numbered from 1 on, the id of the last transaction is
/// the number of transactions.
pub proof fn lemma_last_id(log: Seq<ExecutedView>)
    requires
        numbered(log),
    ensures
        log.len() <= u64::MAX,
        last_id(log) == (if log.len() == 0 {
            None
        } else {
            Some(log.len() as u64)
        }),
{
    if log.len() > 0 {
        assert(log[log.len() - 1].id == log.len());
    }
}

/// In a log that is numbered from 1 on, the transactions with an id from
/// `starting_id` on are the log without those before that id, so that
/// their ids follow one another without a gap.
pub proof fn lemma_from_id(log: Seq<ExecutedView>, starting_id: Option<u64>)
    requires
        numbered(log),
    ensures
        log.filter(from_id(starting_id)) == log.skip(skipped(starting_id, log.len())),
        forall|i: int|
            0 <= i < log.len() - skipped(starting_id, log.len()) ==> (#[trigger] log.skip(
                skipped(starting_id, log.len()),
            )[i]).id == skipped(starting_id, log.len()) + 1 + i,
    decreases log.len(),
{
    reveal(Seq::filter);
    let keep = from_id(starting_id);
    if log.len() > 0 {
        let shorter = log.drop_last();
        assert forall|i: int| 0 <= i < shorter.len() implies (#[trigger] shorter[i]).id == i
            + 1 by {
            assert(shorter[i] == log[i]);
        }
        lemma_from_id(shorter, starting_id);
        assert(log.last().id == log.len());
        if keep(log.last()) {
            assert(skipped(starting_id, log.len()) == skipped(starting_id, shorter.len()));
            assert(shorter.skip(skipped(starting_id, shorter.len())).push(log.last())
                =~= log.skip(skipped(starting_id, log.len())));
        } else {
            assert(shorter.skip(skipped(starting_id, shorter.len())) =~= Seq::empty());
            assert(log.skip(skipped(starting_id, log.len())) =~= Seq::empty());
        }
    } else {
        assert(log.filter(keep) =~= log.skip(0));
    }
    assert forall|i: int| 0 <= i < log.len() - skipped(starting_id, log.len()) implies (
    #[trigger] log.skip(skipped(starting_id, log.len()))[i]).id == skipped(
        starting_id,
        log.len(),
    ) + 1 + i by {
        assert(log.skip(skipped(starting_id, log.len()))[i] == log[skipped(
            starting_id,
            log.len(),
        ) + i]);
    }
}

/// The id of the last transaction of a log, if it holds any.
pub open spec fn last_id(log: Seq<ExecutedView>) -> Option<u64> {
    if log.len() == 0 {
        None
    } else {
        Some(log.last().id)
    }
}

/// What a document key holds.
pub open spec fn lookup_document(docs: Docs, key: DocumentKey) -> Option<DocumentView> {
    if docs.contains_key(key) {
        Some(docs[key])
    } else {
        None
    }
}

/// One step back: what is needed to undo the change to one document.
pub struct Undo {
    /// The collection of the document.
    pub collection: CollectionName,
    /// The id of the document.
    pub id: DocumentId,
    /// The document before the change, if there was one.
    pub previous: Option<OwnedDocument>,
}

/// The documents of `collection` with the ids `ids`, in the order of
/// `ids`; an id without a document is passed over.
pub open spec fn gathered(docs: Docs, collection: (Seq<char>, Seq<char>), ids: Seq<Seq<u8>>) -> Seq<
    DocumentView,
>
    decreases ids.len(),
{
    if ids.len() == 0 {
        Seq::empty()
    } else {
        let rest = gathered(docs, collection, ids.drop_last());
        if docs.contains_key((collection, ids.last())) {
            rest.push(docs[(collection, ids.last())])
        } else {
            rest
        }
    }
}

/// The values of the entries, grouped by their keys: for each run of
/// entries with the same key, the key and the values of the run.
pub open spec fn grouped(entries: Seq<SerializedView>) -> Seq<(Seq<u8>, Seq<Seq<u8>>)>
    decreases entries.len(),
{
    if entries.len() == 0 {
        Seq::empty()
    } else {
        let before = grouped(entries.drop_last());
        let e = entries.last();
        if before.len() > 0 && before.last().0 == e.key {
            before.drop_last().push((e.key, before.last().1.push(e.value)))
        } else {
            before.push((e.key, seq![e.value]))
        }
    }
}

/// The reductions of the first `count` groups by the view `view`, each
/// with the key of its group, or the error of the first that fails.
pub open spec fn reduced_groups<S: Schema>(
    view: ViewId,
    groups: Seq<(Seq<u8>, Seq<Seq<u8>>)>,
    count: nat,
) -> Result<Seq<(Seq<u8>, Seq<u8>)>, ErrorView>
    decreases count,
{
    if count == 0 || count > groups.len() {
        Ok(Seq::empty())
    } else {
        match reduced_groups::<S>(view, groups, (count - 1) as nat) {
            Err(e) => Err(e),
            Ok(done) => match S::spec_reduce(view, groups[count - 1].1) {
                Err(e) => Err(e),
                Ok(value) => Ok(done.push((groups[count - 1].0, value))),
            },
        }
    }
}

/// The mathematical content of a list of groups.
pub open spec fn groups_view(groups: Vec<(Vec<u8>, Vec<Vec<u8>>)>) -> Seq<(Seq<u8>, Seq<Seq<u8>>)> {
    Seq::new(groups@.len(), |i: int| (groups@[i].0@, values_view(groups@[i].1)))
}

/// The mathematical content of a list of reduced values.
pub open spec fn reductions_view(values: Vec<MappedSerializedValue>) -> Seq<(Seq<u8>, Seq<u8>)> {
    Seq::new(values@.len(), |i: int| (values@[i].key@, values@[i].value@))
}

/// The filter that keeps the documents with an id in `range`.
pub open spec fn id_filter(range: Range<Seq<u8>>) -> spec_fn(DocumentView) -> bool {
    |d: DocumentView| in_range(range, d.id)
}

/// The filter that keeps the entries with a key that `filter` lets pass.
pub open spec fn key_filter(filter: Option<QueryKey<Vec<u8>>>) -> spec_fn(SerializedView) -> bool {
    |e: SerializedView| key_matches(filter, e.key)
}

/// The filter that keeps the transactions with an id from `starting_id` on.
pub open spec fn from_id(starting_id: Option<u64>) -> spec_fn(ExecutedView) -> bool {
    |e: ExecutedView|
        match starting_id {
            Some(id) => e.id >= id,
            None => true,
        }
}

/// The mathematical content of a list of documents.
pub open spec fn documents_view(documents: Vec<OwnedDocument>) -> Seq<DocumentView> {
    Seq::new(documents@.len(), |i: int| documents@[i]@)
}

/// The mathematical content of a list of entries.
pub open spec fn entries_view(entries: Vec<Serialized>) -> Seq<SerializedView> {
    Seq::new(entries@.len(), |i: int| entries@[i]@)
}

/// The mathematical content of a list of records.
pub open spec fn records_view(records: Vec<Executed>) -> Seq<ExecutedView> {
    Seq::new(records@.len(), |i: int| records@[i]@)
}

/// The values of a list of entries.
pub open spec fn values_of(entries: Seq<SerializedView>) -> Seq<Seq<u8>> {
    Seq::new(entries.len(), |i: int| entries[i].value)
}

/// What an operation that succeeds reports.
pub open spec fn result_of(op: Operation) -> OperationResultView {
    match op.command {
        Command::Insert { id, .. } => OperationResultView::DocumentUpdated {
            collection: op.collection@,
            id: id@,
            revision: 0,
        },
        Command::Update { header, .. } => OperationResultView::DocumentUpdated {
            collection: op.collection@,
            id: header.id@,
            revision: (header.revision.id + 1) as u64,
        },
        Command::Delete { header } => OperationResultView::DocumentDeleted {
            collection: op.collection@,
            id: header.id@,
        },
    }
}

/// Where no key from position `from` on belongs to another document, none
/// of them does.
pub proof fn lemma_none_taken(index: Index, source: Seq<u8>, pairs: Emitted, from: int, j: int)
    requires
        first_taken(index, source, pairs, from) is None,
        0 <= from <= j < pairs.len(),
    ensures
        !key_taken(index, pairs[j].0, source),
    decreases pairs.len() - from,
{
    if from < j {
        lemma_none_taken(index, source, pairs, from + 1, j);
    }
}

/// Where the views from position `from` on have no objection, none of them
/// has.
pub proof fn lemma_no_objection<S: Schema>(
    views: Seq<ViewDefinition>,
    docs: Docs,
    collection: (Seq<char>, Seq<char>),
    image: DocumentView,
    from: int,
    i: int,
)
    requires
        views_objection::<S>(views, docs, collection, image, from) is None,
        0 <= from <= i < views.len(),
    ensures
        view_objection::<S>(views[i], docs, collection, image) is None,
    decreases views.len() - from,
{
    if from < i {
        lemma_no_objection::<S>(views, docs, collection, image, from + 1, i);
    }
}

/// Where the views before position `i` have no objection, the first
/// objection of the views is that of the view at `i` or of one behind it.
proof fn lemma_first_objection<S: Schema>(
    views: Seq<ViewDefinition>,
    docs: Docs,
    collection: (Seq<char>, Seq<char>),
    image: DocumentView,
    from: int,
    i: int,
)
    requires
        0 <= from <= i < views.len(),
        forall|v: int|
            from <= v < i ==> view_objection::<S>(#[trigger] views[v], docs, collection, image)
                is None,
    ensures
        views_objection::<S>(views, docs, collection, image, from) == views_objection::<S>(
            views,
            docs,
            collection,
            image,
            i,
        ),
    decreases i - from,
{
    if from < i {
        assert(view_objection::<S>(views[from], docs, collection, image) is None);
        lemma_first_objection::<S>(views, docs, collection, image, from + 1, i);
    }
}

/// A unique view keeps a key for the document that has it. Let an
/// operation put a document in the place of its id, and let the document
/// emit, in a unique view of its collection, a key that belongs there to
/// another document. Then the operation fails; and where no view before
/// that one objects, it fails with `UniqueKeyViolation` for that view and
/// for the first such key.
pub proof fn lemma_taken_key_is_refused<S: Schema>(
    schematic: Schematic,
    docs: Docs,
    op: Operation,
    i: int,
    j: int,
)
    requires
        schematic.has_collection(op.collection@),
        decide(docs, op.collection, op.command) matches Ok(Some(_)),
        0 <= i < schematic.views().len(),
        schematic.views()[i].unique,
        schematic.views()[i].name@.0 == op.collection@,
        ({
            let image = decide(docs, op.collection, op.command)->Ok_0->0;
            let view = schematic.views()[i].name@;
            &&& S::spec_map(view, image) matches Ok(pairs)
            &&& 0 <= j < pairs.len()
            &&& key_taken(derived::<S>(view, docs), pairs[j].0, image.id)
        }),
    ensures
        spec_operation::<S>(schematic, docs, op) is Err,
        ({
            let image = decide(docs, op.collection, op.command)->Ok_0->0;
            let view = schematic.views()[i].name@;
            let pairs = S::spec_map(view, image)->Ok_0;
            let index = derived::<S>(view, docs);
            (forall|v: int|
                0 <= v < i ==> view_objection::<S>(
                    #[trigger] schematic.views()[v],
                    docs,
                    op.collection@,
                    image,
                ) is None) ==> first_taken(index, image.id, pairs, 0) is Some
                && spec_operation::<S>(schematic, docs, op) == Err::<Docs, ErrorView>(
                ErrorView::UniqueKeyViolation(
                    schematic.views()[i].name.spec_to_string(),
                    pairs[first_taken(index, image.id, pairs, 0)->0].0,
                ),
            )
        }),
{
    let views = schematic.views();
    let image = decide(docs, op.collection, op.command)->Ok_0->0;
    let view = views[i].name@;
    let pairs = S::spec_map(view, image)->Ok_0;
    let index = derived::<S>(view, docs);
    if first_taken(index, image.id, pairs, 0) is None {
        lemma_none_taken(index, image.id, pairs, 0, j);
    }
    assert(view_objection::<S>(views[i], docs, op.collection@, image) is Some);
    if views_objection::<S>(views, docs, op.collection@, image, 0) is None {
        lemma_no_objection::<S>(views, docs, op.collection@, image, 0, i);
    }
    if forall|v: int|
        0 <= v < i ==> view_objection::<S>(#[trigger] views[v], docs, op.collection@, image)
            is None {
        lemma_first_objection::<S>(views, docs, op.collection@, image, 0, i);
    }
}

/// Documents that fit the views still fit them with a document more, or
/// with a document replaced, to which no view objects.
pub proof fn lemma_valid_with<S: Schema>(
    views: Seq<ViewDefinition>,
    docs: Docs,
    collection: (Seq<char>, Seq<char>),
    image: DocumentView,
)
    requires
        docs_valid::<S>(views, docs),
        views_objection::<S>(views, docs, collection, image, 0) is None,
    ensures
        docs_valid::<S>(views, docs.insert((collection, image.id), image)),
{
    let key = (collection, image.id);
    let after = docs.insert(key, image);
    assert forall|i: int| 0 <= i < views.len() implies {
        let view = (#[trigger] views[i]).name@;
        &&& forall|id: Seq<u8>| #[trigger]
            after.contains_key((view.0, id)) ==> S::spec_map(view, after[(view.0, id)]) is Ok
        &&& views[i].unique ==> keys_unique(derived::<S>(view, after))
    } by {
        let view = views[i].name@;
        lemma_no_objection::<S>(views, docs, collection, image, 0, i);
        if view.0 != collection {
            lemma_derived_elsewhere::<S>(view, docs, after);
            assert forall|id: Seq<u8>| #[trigger] after.contains_key((view.0, id)) implies S::spec_map(
                view,
                after[(view.0, id)],
            ) is Ok by {
                assert(docs.contains_key((view.0, id)));
            }
        } else {
            let pairs = S::spec_map(view, image)->Ok_0;
            assert forall|id: Seq<u8>| #[trigger] after.contains_key((view.0, id)) implies S::spec_map(
                view,
                after[(view.0, id)],
            ) is Ok by {
                if id != image.id {
                    assert(docs.contains_key((view.0, id)));
                }
            }
            if views[i].unique {
                let before_index = derived::<S>(view, docs);
                let after_index = derived::<S>(view, after);
                assert forall|k: Seq<u8>, a: Seq<u8>, b: Seq<u8>|
                    #[trigger] after_index.contains_key((k, a)) && #[trigger] after_index.contains_key(
                        (k, b),
                    ) implies a == b by {
                    if a != image.id && b != image.id {
                        assert(before_index.contains_key((k, a)));
                        assert(before_index.contains_key((k, b)));
                    } else if a != b {
                        let other = if a == image.id { b } else { a };
                        assert(before_index.contains_key((k, other)));
                        let j = lemma_emits_somewhere(pairs, k);
                        lemma_none_taken(before_index, image.id, pairs, 0, j);
                        assert(key_taken(before_index, pairs[j].0, image.id));
                    }
                }
            }
        }
    }
}

/// Documents that fit the views still fit them with a document less.
pub proof fn lemma_valid_without<S: Schema>(
    views: Seq<ViewDefinition>,
    docs: Docs,
    key: DocumentKey,
)
    requires
        docs_valid::<S>(views, docs),
    ensures
        docs_valid::<S>(views, docs.remove(key)),
{
    let after = docs.remove(key);
    assert forall|i: int| 0 <= i < views.len() implies {
        let view = (#[trigger] views[i]).name@;
        &&& forall|id: Seq<u8>| #[trigger]
            after.contains_key((view.0, id)) ==> S::spec_map(view, after[(view.0, id)]) is Ok
        &&& views[i].unique ==> keys_unique(derived::<S>(view, after))
    } by {
        let view = views[i].name@;
        assert forall|id: Seq<u8>| #[trigger] after.contains_key((view.0, id)) implies S::spec_map(
            view,
            after[(view.0, id)],
        ) is Ok by {
            assert(docs.contains_key((view.0, id)));
        }
        if views[i].unique {
            let before_index = derived::<S>(view, docs);
            let after_index = derived::<S>(view, after);
            assert forall|k: Seq<u8>, a: Seq<u8>, b: Seq<u8>|
                #[trigger] after_index.contains_key((k, a)) && #[trigger] after_index.contains_key(
                    (k, b),
                ) implies a == b by {
                assert(before_index.contains_key((k, a)));
                assert(before_index.contains_key((k, b)));
            }
        }
    }
}

/// After a document was inserted or updated, a view of its collection
/// holds an entry of the document under a key exactly if the map function
/// emits the key for the document.
pub proof fn lemma_view_follows_put<S: Schema>(
    view: ViewId,
    docs: Docs,
    d: DocumentView,
    k: Seq<u8>,
)
    ensures
        derived::<S>(view, docs.insert((view.0, d.id), d)).contains_key((k, d.id)) <==> emits(
            emitted::<S>(view, d),
            k,
        ),
        derived::<S>(view, docs.insert((view.0, d.id), d)).contains_key((k, d.id)) ==> derived::<S>(
            view,
            docs.insert((view.0, d.id), d),
        )[(k, d.id)].revision == d.revision,
{
}

/// What a successful operation changes shows in every view of the
/// collection: after an insertion or an update, the view holds an entry of
/// the document under each key that its map function emits for the
/// document, and under no other; after a deletion, it holds no entry of the
/// document.
pub proof fn lemma_operation_shows_in_views<S: Schema>(
    schematic: Schematic,
    docs: Docs,
    op: Operation,
    i: int,
    k: Seq<u8>,
)
    requires
        spec_operation::<S>(schematic, docs, op) is Ok,
        0 <= i < schematic.views().len(),
        schematic.views()[i].name@.0 == op.collection@,
    ensures
        ({
            let view = schematic.views()[i].name@;
            let after = spec_operation::<S>(schematic, docs, op)->Ok_0;
            let id = command_id(op.command);
            match decide(docs, op.collection, op.command) {
                Ok(Some(d)) => derived::<S>(view, after).contains_key((k, id)) <==> emits(
                    emitted::<S>(view, d),
                    k,
                ),
                _ => !derived::<S>(view, after).contains_key((k, id)),
            }
        }),
{
}

/// After a document was deleted, no view holds an entry of it.
pub proof fn lemma_view_follows_delete<S: Schema>(
    view: ViewId,
    docs: Docs,
    id: Seq<u8>,
    k: Seq<u8>,
)
    ensures
        !derived::<S>(view, docs.remove((view.0, id))).contains_key((k, id)),
{
}

/// Where the reductions of some groups fail, those of more groups fail
/// with the same error.
pub proof fn lemma_reduction_fails<S: Schema>(
    view: ViewId,
    groups: Seq<(Seq<u8>, Seq<Seq<u8>>)>,
    short: nat,
    long: nat,
)
    requires
        short <= long <= groups.len(),
        reduced_groups::<S>(view, groups, short) is Err,
    ensures
        reduced_groups::<S>(view, groups, long) == reduced_groups::<S>(view, groups, short),
    decreases long,
{
    if short < long {
        lemma_reduction_fails::<S>(view, groups, short, (long - 1) as nat);
    }
}

/// The ids of the documents for which the view `view` holds an entry with
/// a key that `key` lets pass.
pub open spec fn matching_sources<S: Schema>(
    view: ViewId,
    docs: Docs,
    key: Option<QueryKey<Vec<u8>>>,
) -> Set<Seq<u8>> {
    Set::new(
        |id: Seq<u8>|
            exists|k: Seq<u8>|
                #[trigger] derived::<S>(view, docs).contains_key((k, id)) && key_matches(key, k),
    )
}

/// The keys of the documents of `collection` with the ids `ids`.
pub open spec fn keys_of(collection: (Seq<char>, Seq<char>), ids: Set<Seq<u8>>) -> Set<DocumentKey> {
    Set::new(|dk: DocumentKey| dk.0 == collection && ids.contains(dk.1))
}

/// Whether the operations from position `from` on delete documents of
/// `collection` that `docs` holds, each at the revision that it is at and
/// none twice.
pub open spec fn deletes_present(
    docs: Docs,
    collection: (Seq<char>, Seq<char>),
    ops: Seq<Operation>,
    from: int,
) -> bool {
    &&& forall|j: int|
        from <= j < ops.len() ==> {
            let op = #[trigger] ops[j];
            &&& op.collection@ == collection
            &&& op.command matches Command::Delete { header }
            &&& command_id(op.command).len() <= MAX_ID_LENGTH
            &&& docs.contains_key((collection, command_id(op.command)))
            &&& docs[(collection, command_id(op.command))].revision == op.command->Delete_header.revision.id
        }
    &&& forall|a: int, b: int|
        from <= a < b < ops.len() ==> command_id((#[trigger] ops[a]).command) != command_id(
            (#[trigger] ops[b]).command,
        )
}

/// The ids of the documents that the operations from position `from` on
/// change.
pub open spec fn ids_from(ops: Seq<Operation>, from: int) -> Set<Seq<u8>> {
    Set::new(
        |id: Seq<u8>|
            exists|j: int| from <= j < ops.len() && command_id((#[trigger] ops[j]).command) == id,
    )
}

/// Whether one of the first `count` entries belongs to the document `id`.
pub open spec fn among_sources(entries: Seq<SerializedView>, count: int, id: Seq<u8>) -> bool {
    exists|j: int| 0 <= j < count && j < entries.len() && (#[trigger] entries[j]).source == id
}

/// A transaction that deletes documents that are there, each at its
/// revision and none twice, succeeds and leaves the other documents.
pub proof fn lemma_deletes_succeed<S: Schema>(
    schematic: Schematic,
    docs: Docs,
    collection: (Seq<char>, Seq<char>),
    ops: Seq<Operation>,
    from: int,
)
    requires
        0 <= from <= ops.len(),
        schematic.has_collection(collection),
        deletes_present(docs, collection, ops, from),
    ensures
        spec_transaction::<S>(schematic, docs, ops, from) == Ok::<Docs, ErrorView>(
            docs.remove_keys(keys_of(collection, ids_from(ops, from))),
        ),
    decreases ops.len() - from,
{
    if from == ops.len() {
        assert(docs.remove_keys(keys_of(collection, ids_from(ops, from))) =~= docs);
    } else {
        let op = ops[from];
        let id = command_id(op.command);
        let next = docs.remove((collection, id));
        assert(spec_operation::<S>(schematic, docs, op) == Ok::<Docs, ErrorView>(next));
        assert forall|j: int| from + 1 <= j < ops.len() implies {
            let later = #[trigger] ops[j];
            &&& later.collection@ == collection
            &&& later.command matches Command::Delete { header }
            &&& command_id(later.command).len() <= MAX_ID_LENGTH
            &&& next.contains_key((collection, command_id(later.command)))
            &&& next[(collection, command_id(later.command))].revision
                == later.command->Delete_header.revision.id
        } by {
            assert(command_id(ops[from].command) != command_id(ops[j].command));
        }
        lemma_deletes_succeed::<S>(schematic, next, collection, ops, from + 1);
        let here = keys_of(collection, ids_from(ops, from));
        let later = keys_of(collection, ids_from(ops, from + 1));
        assert forall|dk: DocumentKey| here.contains(dk) <==> (later.contains(dk) || dk == (
            collection,
            id,
        )) by {
            if later.contains(dk) {
                let j = choose|j: int|
                    from + 1 <= j < ops.len() && command_id((#[trigger] ops[j]).command) == dk.1;
                assert(command_id(ops[j].command) == dk.1);
            }
            if dk == (collection, id) {
                assert(command_id(ops[from].command) == dk.1);
            }
            if here.contains(dk) {
                let j = choose|j: int|
                    from <= j < ops.len() && command_id((#[trigger] ops[j]).command) == dk.1;
                if j > from {
                    assert(command_id(ops[j].command) == dk.1);
                }
            }
        }
        assert(next.remove_keys(later) =~= docs.remove_keys(here));
    }
}

/// The documents of a database and the indexes of its views, for the schema
/// `S`.
pub struct Documents<S: Schema> {
    schematic: Schematic,
    collections: AssocList<CollectionName, StoredCollection>,
    indexes: AssocList<ViewName, StoredIndex>,
    log: Vec<Executed>,
    marker: PhantomData<S>,
}

impl<S: Schema> Documents<S> {
    /// The collections and the views of the schema.
    pub closed spec fn schematic(&self) -> Schematic {
        self.schematic
    }

    /// The documents.
    pub closed spec fn docs(&self) -> Docs {
        Map::new(
            |dk: DocumentKey|
                self.collections@.contains_key(dk.0) && self.collections@[dk.0]@.contains_key(dk.1),
            |dk: DocumentKey| self.collections@[dk.0]@[dk.1]@,
        )
    }

    /// The entries of the view `view`.
    pub closed spec fn index(&self, view: ViewId) -> Index {
        if self.indexes@.contains_key(view) {
            index_view(self.indexes@[view]@)
        } else {
            Map::empty()
        }
    }

    /// The invariant of the structure: there is a place for the documents
    /// of each collection and for the entries of each view of the schema,
    /// and each document and each entry stands under its own key.
    pub closed spec fn structured(&self) -> bool {
        &&& self.schematic.wf()
        &&& self.collections.wf()
        &&& self.indexes.wf()
        &&& forall|c: (Seq<char>, Seq<char>)|
            self.collections@.contains_key(c) <==> self.schematic.has_collection(c)
        &&& forall|v: ViewId| self.indexes@.contains_key(v) <==> self.schematic.has_view(v)
        &&& forall|c: (Seq<char>, Seq<char>)| #[trigger]
            self.collections@.contains_key(c) ==> self.collections@[c].wf()
        &&& forall|c: (Seq<char>, Seq<char>), id: Seq<u8>|
            self.collections@.contains_key(c) && #[trigger] self.collections@[c]@.contains_key(id)
                ==> self.collections@[c]@[id].header.id@ == id
                && self.collections@[c]@[id].header.id.wf()
        &&& forall|v: ViewId| #[trigger]
            self.indexes@.contains_key(v) ==> self.indexes@[v].wf() && entries_fit(
                self.indexes@[v]@,
            )
    }

    /// The records of the transactions that were applied, oldest first.
    pub closed spec fn log(&self) -> Seq<ExecutedView> {
        Seq::new(self.log@.len(), |i: int| self.log@[i]@)
    }

    /// Whether the transactions are numbered from 1 on, without a gap.
    pub open spec fn log_wf(&self) -> bool {
        numbered(self.log())
    }

    /// The invariant: the structure is in order, the indexes hold what the
    /// views emit for the documents, the documents fit the views, and the
    /// transactions are numbered without a gap.
    pub open spec fn wf(&self) -> bool {
        &&& self.structured()
        &&& self.in_sync()
        &&& docs_valid::<S>(self.schematic().views(), self.docs())
        &&& self.log_wf()
    }

    /// The documents of `collection` in the order of their ids.
    pub closed spec fn documents_in_order(&self, collection: (Seq<char>, Seq<char>)) -> Seq<
        DocumentView,
    > {
        if self.collections@.contains_key(collection) {
            Seq::new(
                self.collections@[collection].pairs().len(),
                |i: int| self.collections@[collection].pairs()[i].1@,
            )
        } else {
            Seq::empty()
        }
    }

    /// The entries of `view` in the order of their keys, and for the same
    /// key in the order of the ids of their documents.
    pub closed spec fn entries_in_order(&self, view: ViewId) -> Seq<SerializedView> {
        if self.indexes@.contains_key(view) {
            Seq::new(self.indexes@[view].pairs().len(), |i: int| self.indexes@[view].pairs()[i].1@)
        } else {
            Seq::empty()
        }
    }

    /// The documents of a collection in their order are the documents of
    /// the collection, each once, and their ids increase.
    pub proof fn lemma_documents_in_order(&self, collection: (Seq<char>, Seq<char>))
        requires
            self.structured(),
        ensures
            forall|i: int|
                0 <= i < self.documents_in_order(collection).len() ==> {
                    let d = #[trigger] self.documents_in_order(collection)[i];
                    self.docs().contains_key((collection, d.id)) && self.docs()[(collection, d.id)]
                        == d
                },
            forall|i: int, j: int|
                0 <= i < j < self.documents_in_order(collection).len() ==> crate::order::less(
                    (#[trigger] self.documents_in_order(collection)[i]).id,
                    (#[trigger] self.documents_in_order(collection)[j]).id,
                ),
            forall|id: Seq<u8>|
                self.docs().contains_key((collection, id)) ==> exists|i: int|
                    0 <= i < self.documents_in_order(collection).len() && (
                    #[trigger] self.documents_in_order(collection)[i]).id == id,
    {
        if self.collections@.contains_key(collection) {
            let stored = self.collections@[collection];
            let pairs = stored.pairs();
            let listed = self.documents_in_order(collection);
            assert forall|i: int| 0 <= i < listed.len() implies (#[trigger] listed[i]).id
                == pairs[i].0 && self.docs().contains_key((collection, listed[i].id))
                && self.docs()[(collection, listed[i].id)] == listed[i] by {
                lemma_in_map::<Vec<u8>, OwnedDocument>(pairs, i);
                assert(stored@.contains_key(pairs[i].0));
            }
            assert forall|i: int, j: int| 0 <= i < j < listed.len() implies crate::order::less(
                (#[trigger] listed[i]).id,
                (#[trigger] listed[j]).id,
            ) by {
                assert(listed[i].id == pairs[i].0);
                assert(listed[j].id == pairs[j].0);
            }
            assert forall|id: Seq<u8>| self.docs().contains_key((collection, id)) implies exists|
                i: int,
            |
                0 <= i < listed.len() && (#[trigger] listed[i]).id == id by {
                let i = lemma_from_map::<Vec<u8>, OwnedDocument>(pairs, id);
                assert(listed[i].id == pairs[i].0);
            }
        }
    }

    /// The entries of a view in their order are the entries that the view
    /// emits for the documents, each once.
    pub proof fn lemma_entries_in_order(&self, i: int)
        requires
            self.structured(),
            self.in_sync(),
            0 <= i < self.schematic().views().len(),
        ensures
            ({
                let view = self.schematic().views()[i].name@;
                let listed = self.entries_in_order(view);
                let index = derived::<S>(view, self.docs());
                &&& forall|j: int|
                    0 <= j < listed.len() ==> index.contains_key(
                        ((#[trigger] listed[j]).key, listed[j].source),
                    ) && index[(listed[j].key, listed[j].source)] == listed[j]
                &&& forall|ik: (Seq<u8>, Seq<u8>)| #[trigger]
                    index.contains_key(ik) ==> exists|j: int|
                        0 <= j < listed.len() && #[trigger] listed[j] == index[ik]
                &&& forall|a: int, b: int|
                    0 <= a < b < listed.len() ==> <EntryKey as crate::sorted::SortKey>::before(
                        ((#[trigger] listed[a]).key, listed[a].source),
                        ((#[trigger] listed[b]).key, listed[b].source),
                    )
            }),
    {
        let view = self.schematic().views()[i].name@;
        assert(self.schematic.has_view(view));
        let stored = self.indexes@[view];
        let pairs = stored.pairs();
        let listed = self.entries_in_order(view);
        let index = derived::<S>(view, self.docs());
        assert(self.index(view) == index);
        assert forall|j: int| 0 <= j < listed.len() implies pairs[j].0 == (
            (#[trigger] listed[j]).key,
            listed[j].source,
        ) && index.contains_key((listed[j].key, listed[j].source)) && index[(
            listed[j].key,
            listed[j].source,
        )] == listed[j] by {
            lemma_in_map::<EntryKey, Serialized>(pairs, j);
            assert(stored@.contains_key(pairs[j].0));
            assert(index_view(stored@).contains_key(pairs[j].0));
        }
        assert forall|ik: (Seq<u8>, Seq<u8>)| #[trigger] index.contains_key(ik) implies exists|
            j: int,
        |
            0 <= j < listed.len() && #[trigger] listed[j] == index[ik] by {
            assert(index_view(stored@).contains_key(ik));
            let j = lemma_from_map::<EntryKey, Serialized>(pairs, ik);
            assert(listed[j] == index[ik]);
        }
        assert forall|a: int, b: int| 0 <= a < b < listed.len() implies <
            EntryKey as crate::sorted::SortKey
        >::before(
            ((#[trigger] listed[a]).key, listed[a].source),
            ((#[trigger] listed[b]).key, listed[b].source),
        ) by {
            assert(pairs[a].0 == (listed[a].key, listed[a].source));
            assert(pairs[b].0 == (listed[b].key, listed[b].source));
        }
    }

    /// What a query returns is what the view emits for the documents: each
    /// entry of the result is an entry of the view with a key that the
    /// filter lets pass, and without a limit each such entry of the view is
    /// in the result.
    pub proof fn lemma_query_answers(
        &self,
        i: int,
        key: Option<QueryKey<Vec<u8>>>,
        descending: bool,
        limit: Option<u32>,
    )
        requires
            self.structured(),
            self.in_sync(),
            0 <= i < self.schematic().views().len(),
        ensures
            ({
                let view = self.schematic().views()[i].name@;
                let index = derived::<S>(view, self.docs());
                let found = select(self.entries_in_order(view), key_filter(key), descending, limit);
                &&& forall|j: int|
                    0 <= j < found.len() ==> key_matches(key, (#[trigger] found[j]).key)
                        && index.contains_key((found[j].key, found[j].source)) && index[(
                        found[j].key,
                        found[j].source,
                    )] == found[j]
                &&& limit is None ==> forall|ik: (Seq<u8>, Seq<u8>)| #[trigger]
                    index.contains_key(ik) && key_matches(key, ik.0) ==> exists|j: int|
                        0 <= j < found.len() && #[trigger] found[j] == index[ik]
            }),
    {
        let view = self.schematic().views()[i].name@;
        let index = derived::<S>(view, self.docs());
        let listed = self.entries_in_order(view);
        let keep = key_filter(key);
        let found = select(listed, keep, descending, limit);
        self.lemma_entries_in_order(i);
        assert forall|j: int| 0 <= j < found.len() implies key_matches(key, (#[trigger] found[j]).key)
            && index.contains_key((found[j].key, found[j].source)) && index[(
            found[j].key,
            found[j].source,
        )] == found[j] by {
            let a = lemma_select_sound(listed, keep, descending, limit, j);
            assert(listed[a] == found[j]);
        }
        if limit is None {
            assert forall|ik: (Seq<u8>, Seq<u8>)| #[trigger]
                index.contains_key(ik) && key_matches(key, ik.0) implies exists|j: int|
                0 <= j < found.len() && #[trigger] found[j] == index[ik] by {
                let a = choose|a: int| 0 <= a < listed.len() && #[trigger] listed[a] == index[ik];
                assert(listed[a].key == ik.0);
                let j = lemma_select_complete(listed, keep, descending, a);
                assert(found[j] == index[ik]);
            }
        }
    }

    /// A unique view never returns two documents for the same key: two
    /// entries of a query of a unique view that have the same key belong to
    /// the same document.
    pub proof fn lemma_unique_view(
        &self,
        i: int,
        key: Option<QueryKey<Vec<u8>>>,
        descending: bool,
        limit: Option<u32>,
        a: int,
        b: int,
    )
        requires
            self.wf(),
            0 <= i < self.schematic().views().len(),
            self.schematic().views()[i].unique,
            0 <= a < select(
                self.entries_in_order(self.schematic().views()[i].name@),
                key_filter(key),
                descending,
                limit,
            ).len(),
            0 <= b < select(
                self.entries_in_order(self.schematic().views()[i].name@),
                key_filter(key),
                descending,
                limit,
            ).len(),
        ensures
            ({
                let found = select(
                    self.entries_in_order(self.schematic().views()[i].name@),
                    key_filter(key),
                    descending,
                    limit,
                );
                found[a].key == found[b].key ==> found[a].source == found[b].source
            }),
    {
        self.lemma_query_answers(i, key, descending, limit);
        let view = self.schematic().views()[i].name@;
        let index = derived::<S>(view, self.docs());
        let found = select(self.entries_in_order(view), key_filter(key), descending, limit);
        assert(index.contains_key((found[a].key, found[a].source)));
        assert(index.contains_key((found[b].key, found[b].source)));
    }

    /// Whether the index of each view of the schema holds what the view
    /// emits for the documents.
    pub open spec fn in_sync(&self) -> bool {
        forall|i: int|
            0 <= i < self.schematic().views().len() ==> self.index(
                (#[trigger] self.schematic().views()[i]).name@,
            ) == derived::<S>(self.schematic().views()[i].name@, self.docs())
    }

    /// The index at position `i` of the schema is that of `target`, if the
    /// view belongs to `collection` and `i` is below `done`, and that of
    /// `docs` otherwise.
    spec fn index_follows(
        &self,
        i: int,
        done: int,
        collection: (Seq<char>, Seq<char>),
        docs: Docs,
        target: Docs,
    ) -> bool {
        let view = self.schematic.views()[i].name@;
        self.index(view) == (if i < done && view.0 == collection {
            derived::<S>(view, target)
        } else {
            derived::<S>(view, docs)
        })
    }

    /// The places for the documents and the entries of the schema `S`,
    /// without documents: the collections and the views are those that the
    /// definition of `S` makes of the schema without collections. Fails
    /// with the error of that definition where it fails.
    pub fn new() -> (r: Result<Self, Error>)
        ensures
            match r {
                Ok(documents) => {
                    &&& S::spec_define_collections(SchematicView::empty()).error is None
                    &&& documents.wf()
                    &&& documents.schematic()@ == S::spec_define_collections(
                        SchematicView::empty(),
                    ).schema
                    &&& documents.docs() == Map::<DocumentKey, DocumentView>::empty()
                    &&& documents.log() == Seq::<ExecutedView>::empty()
                },
                Err(e) => S::spec_define_collections(SchematicView::empty()).error == Some(e@),
            },
    {
        let mut schematic = Schematic::new();
        match S::define_collections(&mut schematic) {
            Ok(_) => {},
            Err(e) => { return Err(e); },
        }
        let mut collections: AssocList<CollectionName, StoredCollection> = AssocList::new();
        let mut i: usize = 0;
        while i < schematic.collection_count()
            invariant
                schematic.wf(),
                collections.wf(),
                i <= schematic.collections().len(),
                forall|c: (Seq<char>, Seq<char>)|
                    collections@.contains_key(c) <==> exists|j: int|
                        0 <= j < i && #[trigger] schematic.collections()[j] == c,
                forall|c: (Seq<char>, Seq<char>)| #[trigger]
                    collections@.contains_key(c) ==> collections@[c].wf() && collections@[c]@
                        == Map::<Seq<u8>, OwnedDocument>::empty(),
            decreases schematic.collections().len() - i,
        {
            let name = schematic.collection_at(i).clone();
            let ghost before = collections@;
            collections.insert(name, SortedMap::new());
            proof {
                assert forall|c: (Seq<char>, Seq<char>)|
                    collections@.contains_key(c) <==> exists|j: int|
                        0 <= j < i + 1 && #[trigger] schematic.collections()[j] == c by {
                    if before.contains_key(c) {
                        let j = choose|j: int|
                            0 <= j < i && #[trigger] schematic.collections()[j] == c;
                        assert(schematic.collections()[j] == c);
                    }
                    if c == schematic.collections()[i as int] {
                        assert(schematic.collections()[i as int] == c);
                    }
                }
            }
            i += 1;
        }
        let mut indexes: AssocList<ViewName, StoredIndex> = AssocList::new();
        let mut i: usize = 0;
        while i < schematic.view_count()
            invariant
                schematic.wf(),
                indexes.wf(),
                i <= schematic.views().len(),
                forall|v: ViewId|
                    indexes@.contains_key(v) <==> exists|j: int|
                        0 <= j < i && (#[trigger] schematic.views()[j]).name@ == v,
                forall|v: ViewId| #[trigger]
                    indexes@.contains_key(v) ==> indexes@[v].wf() && indexes@[v]@ == Map::<
                        (Seq<u8>, Seq<u8>),
                        crate::schema::view::Serialized,
                    >::empty(),
            decreases schematic.views().len() - i,
        {
            let name = schematic.view_at(i).name.clone();
            let ghost before = indexes@;
            indexes.insert(name, SortedMap::new());
            proof {
                assert forall|v: ViewId|
                    indexes@.contains_key(v) <==> exists|j: int|
                        0 <= j < i + 1 && (#[trigger] schematic.views()[j]).name@ == v by {
                    if before.contains_key(v) {
                        let j = choose|j: int|
                            0 <= j < i && (#[trigger] schematic.views()[j]).name@ == v;
                        assert(schematic.views()[j].name@ == v);
                    }
                    if v == schematic.views()[i as int].name@ {
                        assert(schematic.views()[i as int].name@ == v);
                    }
                }
            }
            i += 1;
        }
        let documents = Documents {
            schematic,
            collections,
            indexes,
            log: Vec::new(),
            marker: PhantomData,
        };
        proof {
            assert(documents.docs() =~= Map::<DocumentKey, DocumentView>::empty());
            assert(documents.log() =~= Seq::<ExecutedView>::empty());
            assert forall|i: int| 0 <= i < documents.schematic().views().len() implies keys_unique(
                derived::<S>((#[trigger] documents.schematic().views()[i]).name@, documents.docs()),
            ) by {}
            assert forall|j: int| 0 <= j < documents.schematic().views().len() implies documents.index(
                (#[trigger] documents.schematic().views()[j]).name@,
            ) == derived::<S>(documents.schematic().views()[j].name@, documents.docs()) by {
                let view = documents.schematic().views()[j].name@;
                assert(documents.indexes@.contains_key(view));
                assert(documents.index(view) =~= derived::<S>(view, documents.docs()));
            }
        }
        Ok(documents)
    }

    /// The document `id` of `collection`, if there is one.
    pub fn get(&self, collection: &CollectionName, id: &DocumentId) -> (document: Option<
        OwnedDocument,
    >)
        requires
            self.structured(),
        ensures
            match document {
                Some(d) => self.docs().contains_key((collection@, id@)) && d@ == self.docs()[(
                    collection@,
                    id@,
                )] && d.header.id.wf(),
                None => !self.docs().contains_key((collection@, id@)),
            },
    {
        match self.collections.get(collection) {
            Some(stored) => {
                let key = crate::codec::copy_bytes(id.as_bytes());
                match stored.get(&key) {
                    Some(d) => Some(d.clone()),
                    None => None,
                }
            },
            None => None,
        }
    }

    /// What the view `view` emits for `image`: nothing for no image, and
    /// nothing where the map function fails.
    fn pairs_of(view: &ViewName, image: &Option<OwnedDocument>) -> (pairs: Vec<Mapping>)
        ensures
            mappings_view(pairs) == (match image {
                Some(d) => emitted::<S>(view@, d@),
                None => Seq::empty(),
            }),
    {
        match image {
            Some(d) => match S::map(view, d) {
                Ok(pairs) => pairs,
                Err(_) => {
                    let pairs: Vec<Mapping> = Vec::new();
                    assert(mappings_view(pairs) =~= Seq::empty());
                    pairs
                },
            },
            None => {
                let pairs: Vec<Mapping> = Vec::new();
                assert(mappings_view(pairs) =~= Seq::empty());
                pairs
            },
        }
    }

    /// Puts `image` in the place of the document `id` of `collection`, or
    /// takes the document out where there is no image, and has the indexes
    /// of the views of the collection follow.
    pub fn put_image(
        &mut self,
        collection: &CollectionName,
        id: &DocumentId,
        image: Option<OwnedDocument>,
    )
        requires
            old(self).structured(),
            old(self).in_sync(),
            old(self).schematic().has_collection(collection@),
            image matches Some(d) ==> d.header.id@ == id@ && d.header.id.wf(),
        ensures
            final(self).structured(),
            final(self).in_sync(),
            final(self).schematic() == old(self).schematic(),
            final(self).log() == old(self).log(),
            final(self).log_wf() == old(self).log_wf(),
            final(self).docs() == assign_document(
                old(self).docs(),
                (collection@, id@),
                image_view(image),
            ),
    {
        let ghost docs = self.docs();
        let ghost key = (collection@, id@);
        let ghost target = assign_document(docs, key, image_view(image));
        let previous = self.get(collection, id);
        let n = self.schematic.view_count();
        let mut i: usize = 0;
        while i < n
            invariant
                self.structured(),
                self.schematic == old(self).schematic,
                self.log == old(self).log,
                self.docs() == docs,
                n == self.schematic.views().len(),
                i <= n,
                key == (collection@, id@),
                target == assign_document(docs, key, image_view(image)),
                self.schematic.has_collection(collection@),
                image matches Some(d) ==> d.header.id@ == id@ && d.header.id.wf(),
                match previous {
                    Some(d) => docs.contains_key(key) && d@ == docs[key],
                    None => !docs.contains_key(key),
                },
                forall|j: int|
                    0 <= j < n ==> #[trigger] self.index_follows(j, i as int, collection@, docs, target),
            decreases n - i,
        {
            let definition = self.schematic.view_at(i);
            let ghost view = definition.name@;
            if definition.name.collection.key_eq(collection) {
                let old_pairs = Self::pairs_of(&definition.name, &previous);
                let new_pairs = Self::pairs_of(&definition.name, &image);
                let ghost before = *self;
                proof {
                    assert(before.index_follows(i as int, i as int, collection@, docs, target));
                    assert(self.schematic.has_view(view));
                }
                match self.indexes.get_mut(&definition.name) {
                    Some(index) => {
                        let ghost stored_before = index@;
                        remove_entries(index, id, &old_pairs);
                        let ghost stored_middle = index@;
                        match &image {
                            Some(d) => {
                                insert_entries(index, &d.header, &new_pairs);
                            },
                            None => {},
                        }
                        proof {
                            let base = derived::<S>(view, docs);
                            assert(index_view(stored_before) == base);
                            let removed = docs.remove(key);
                            if docs.contains_key(key) {
                                lemma_derived_without::<S>(view, docs, id@);
                            } else {
                                assert(removed =~= docs);
                            }
                            assert(index_view(stored_middle) == derived::<S>(view, removed));
                            if image is Some {
                                let d = image->0@;
                                lemma_derived_with::<S>(view, removed, d);
                                assert(removed.insert(key, d) =~= docs.insert(key, d));
                            }
                            assert(index_view(index@) == derived::<S>(view, target));
                        }
                    },
                    None => {},
                }
                proof {
                    assert(self.docs() =~= docs);
                    assert forall|j: int| 0 <= j < n implies #[trigger] self.index_follows(
                        j,
                        i + 1,
                        collection@,
                        docs,
                        target,
                    ) by {
                        assert(before.index_follows(j, i as int, collection@, docs, target));
                        let other = self.schematic.views()[j].name@;
                        if j != i as int {
                            assert(other != view);
                        }
                    }
                }
            } else {
                proof {
                    assert forall|j: int| 0 <= j < n implies #[trigger] self.index_follows(
                        j,
                        i + 1,
                        collection@,
                        docs,
                        target,
                    ) by {
                        assert(self.index_follows(j, i as int, collection@, docs, target));
                    }
                }
            }
            i += 1;
        }
        let ghost before = *self;
        let key_bytes = crate::codec::copy_bytes(id.as_bytes());
        match self.collections.get_mut(collection) {
            Some(stored) => {
                match image {
                    Some(d) => {
                        stored.insert(key_bytes, d);
                    },
                    None => {
                        stored.remove(&key_bytes);
                    },
                }
            },
            None => {},
        }
        proof {
            assert(self.docs() =~= target);
            assert forall|j: int| 0 <= j < n implies self.index(
                (#[trigger] self.schematic().views()[j]).name@,
            ) == derived::<S>(self.schematic().views()[j].name@, self.docs()) by {
                assert(before.index_follows(j, n as int, collection@, docs, target));
                let view = self.schematic.views()[j].name@;
                if view.0 != collection@ {
                    lemma_derived_elsewhere::<S>(view, docs, target);
                }
            }
        }
    }

    /// What the command of `op` puts in the place of its document; see
    /// [`decide`].
    fn new_image(&self, op: &Operation) -> (r: Result<Option<OwnedDocument>, Error>)
        requires
            self.structured(),
        ensures
            match r {
                Ok(image) => decide(self.docs(), op.collection, op.command) == Ok::<
                    Option<DocumentView>,
                    ErrorView,
                >(image_view(image)) && (image matches Some(d) ==> d.header.id@ == command_id(
                    op.command,
                ) && d.header.id.wf()),
                Err(e) => decide(self.docs(), op.collection, op.command) == Err::<
                    Option<DocumentView>,
                    ErrorView,
                >(e@),
            },
    {
        let id = match &op.command {
            Command::Insert { id, .. } => id,
            Command::Update { header, .. } => &header.id,
            Command::Delete { header } => &header.id,
        };
        if id.as_bytes().len() > MAX_ID_LENGTH {
            return Err(Error::DocumentIdTooLong);
        }
        let current = self.get(&op.collection, id);
        match &op.command {
            Command::Insert { id, contents } => match current {
                Some(_) => Err(
                    Error::DocumentConflict(
                        op.collection.to_string(),
                        crate::codec::copy_bytes(id.as_bytes()),
                    ),
                ),
                None => Ok(
                    Some(
                        OwnedDocument {
                            header: Header { id: id.clone(), revision: Revision { id: 0 } },
                            contents: crate::codec::copy_bytes(contents.as_slice()),
                        },
                    ),
                ),
            },
            Command::Update { header, contents } => match current {
                None => Err(
                    Error::DocumentNotFound(
                        op.collection.to_string(),
                        crate::codec::copy_bytes(id.as_bytes()),
                    ),
                ),
                Some(existing) => if existing.header.revision.id != header.revision.id
                    || header.revision.id == u64::MAX {
                    Err(
                        Error::DocumentConflict(
                            op.collection.to_string(),
                            crate::codec::copy_bytes(id.as_bytes()),
                        ),
                    )
                } else {
                    Ok(
                        Some(
                            OwnedDocument {
                                header: Header {
                                    id: header.id.clone(),
                                    revision: Revision { id: header.revision.id + 1 },
                                },
                                contents: crate::codec::copy_bytes(contents.as_slice()),
                            },
                        ),
                    )
                },
            },
            Command::Delete { header } => match current {
                None => Err(
                    Error::DocumentNotFound(
                        op.collection.to_string(),
                        crate::codec::copy_bytes(id.as_bytes()),
                    ),
                ),
                Some(existing) => if existing.header.revision.id != header.revision.id {
                    Err(
                        Error::DocumentConflict(
                            op.collection.to_string(),
                            crate::codec::copy_bytes(id.as_bytes()),
                        ),
                    )
                } else {
                    Ok(None)
                },
            },
        }
    }

    /// The first objection of a view of the schema against `image` as a
    /// document of `collection`; see [`views_objection`].
    fn check_views(&self, collection: &CollectionName, image: &OwnedDocument) -> (r: Result<
        (),
        Error,
    >)
        requires
            self.structured(),
            self.in_sync(),
        ensures
            match r {
                Ok(_) => views_objection::<S>(
                    self.schematic().views(),
                    self.docs(),
                    collection@,
                    image@,
                    0,
                ) is None,
                Err(e) => views_objection::<S>(
                    self.schematic().views(),
                    self.docs(),
                    collection@,
                    image@,
                    0,
                ) == Some(e@),
            },
    {
        let n = self.schematic.view_count();
        let ghost views = self.schematic.views();
        let ghost docs = self.docs();
        let mut i: usize = 0;
        while i < n
            invariant
                self.structured(),
                self.in_sync(),
                views == self.schematic.views(),
                docs == self.docs(),
                n == views.len(),
                i <= n,
                views_objection::<S>(views, docs, collection@, image@, 0) == views_objection::<S>(
                    views,
                    docs,
                    collection@,
                    image@,
                    i as int,
                ),
            decreases n - i,
        {
            let definition = self.schematic.view_at(i);
            if definition.name.collection.key_eq(collection) {
                let pairs = match S::map(&definition.name, image) {
                    Ok(pairs) => pairs,
                    Err(e) => { return Err(e); },
                };
                if definition.unique {
                    proof {
                        assert(self.schematic.has_view(definition.name@));
                        assert(self.index(self.schematic().views()[i as int].name@) == derived::<S>(
                            definition.name@,
                            docs,
                        ));
                    }
                    match self.indexes.get(&definition.name) {
                        Some(index) => {
                            match find_taken(index, &image.header.id, &pairs) {
                                Some(j) => {
                                    return Err(
                                        Error::UniqueKeyViolation(
                                            definition.name.to_string(),
                                            crate::codec::copy_bytes(pairs[j].key.as_slice()),
                                        ),
                                    );
                                },
                                None => {},
                            }
                        },
                        None => {},
                    }
                }
            }
            i += 1;
        }
        Ok(())
    }

    /// Applies one operation: the change of its command is made if the
    /// schema has the collection, the command fits the document, and no
    /// view objects. Otherwise nothing is changed.
    pub fn apply_operation(&mut self, op: &Operation) -> (r: Result<OperationResult, Error>)
        requires
            old(self).wf(),
        ensures
            final(self).wf(),
            final(self).schematic() == old(self).schematic(),
            final(self).log() == old(self).log(),
            match spec_operation::<S>(old(self).schematic(), old(self).docs(), *op) {
                Ok(docs) => r matches Ok(result) && result@ == result_of(*op) && final(self).docs()
                    == docs,
                Err(e) => r matches Err(error) && error@ == e && final(self).docs() == old(
                    self,
                ).docs(),
            },
    {
        let ghost docs = self.docs();
        if !self.schematic.contains_collection(&op.collection) {
            return Err(Error::CollectionNotFound);
        }
        let image = match self.new_image(op) {
            Ok(image) => image,
            Err(e) => { return Err(e); },
        };
        let result = match &image {
            Some(d) => {
                match self.check_views(&op.collection, d) {
                    Ok(_) => {},
                    Err(e) => { return Err(e); },
                }
                proof {
                    lemma_valid_with::<S>(self.schematic().views(), docs, op.collection@, d@);
                }
                OperationResult::DocumentUpdated {
                    collection: op.collection.clone(),
                    header: d.header.clone(),
                }
            },
            None => {
                proof {
                    lemma_valid_without::<S>(
                        self.schematic().views(),
                        docs,
                        (op.collection@, command_id(op.command)),
                    );
                }
                match &op.command {
                    Command::Delete { header } => OperationResult::DocumentDeleted {
                        collection: op.collection.clone(),
                        id: header.id.clone(),
                    },
                    _ => OperationResult::Success,
                }
            },
        };
        let id = match &op.command {
            Command::Insert { id, .. } => id,
            Command::Update { header, .. } => &header.id,
            Command::Delete { header } => &header.id,
        };
        self.put_image(&op.collection, id, image);
        Ok(result)
    }

    /// Applies a transaction at the time `now`: its operations are applied
    /// in their order, and all of them or none. Where all succeed, the
    /// transaction is recorded under the id that follows that of the last
    /// one, and what each operation did is returned. Where one fails, its
    /// error is returned, and the documents, the indexes and the log are as
    /// they were.
    pub fn apply_transaction(&mut self, transaction: &Transaction, now: Timestamp) -> (r: Result<
        Vec<OperationResult>,
        Error,
    >)
        requires
            old(self).wf(),
        ensures
            final(self).wf(),
            final(self).schematic() == old(self).schematic(),
            match spec_transaction::<S>(
                old(self).schematic(),
                old(self).docs(),
                transaction.operations@,
                0,
            ) {
                Ok(docs) => {
                    &&& r matches Ok(results)
                    &&& results_view(results) == spec_results(transaction.operations@)
                    &&& final(self).docs() == docs
                    &&& final(self).log() == old(self).log().push(
                        ExecutedView {
                            id: (old(self).log().len() + 1) as u64,
                            results: spec_results(transaction.operations@),
                            timestamp: now,
                        },
                    )
                    &&& last_id(final(self).log()) == Some((old(self).log().len() + 1) as u64)
                    &&& last_id(final(self).log()) matches Some(id) && id == (match last_id(
                        old(self).log(),
                    ) {
                        Some(previous) => previous + 1,
                        None => 1int,
                    })
                },
                Err(e) => {
                    &&& r matches Err(error)
                    &&& error@ == e
                    &&& final(self).docs() == old(self).docs()
                    &&& final(self).log() == old(self).log()
                },
            },
    {
        let ghost docs0 = self.docs();
        let ghost schematic = self.schematic();
        let ghost ops = transaction.operations@;
        let ghost mut states: Seq<Docs> = seq![docs0];
        let mut undo: Vec<Undo> = Vec::new();
        let mut results: Vec<OperationResult> = Vec::new();
        let mut i: usize = 0;
        let mut failure: Option<Error> = None;
        while i < transaction.operations.len() && failure.is_none()
            invariant
                self.wf(),
                self.schematic() == schematic,
                self.log() == old(self).log(),
                ops == transaction.operations@,
                i <= ops.len(),
                states.len() == undo@.len() + 1,
                states[0] == docs0,
                self.docs() == states.last(),
                docs_valid::<S>(schematic.views(), docs0),
                forall|j: int|
                    0 <= j < undo@.len() ==> {
                        let step = #[trigger] undo@[j];
                        &&& schematic.has_collection(step.collection@)
                        &&& image_view(step.previous) == lookup_document(
                            states[j],
                            (step.collection@, step.id@),
                        )
                        &&& (step.previous matches Some(d) ==> d.header.id@ == step.id@
                            && d.header.id.wf())
                        &&& exists|image: Option<DocumentView>|
                            states[j + 1] == assign_document(
                                states[j],
                                (step.collection@, step.id@),
                                image,
                            )
                    },
                match failure {
                    None => {
                        &&& results@.len() == i
                        &&& undo@.len() == i
                        &&& forall|j: int| 0 <= j < i ==> (#[trigger] results@[j])@ == result_of(ops[j])
                        &&& spec_transaction::<S>(schematic, docs0, ops, 0) == spec_transaction::<S>(
                            schematic,
                            self.docs(),
                            ops,
                            i as int,
                        )
                    },
                    Some(e) => spec_transaction::<S>(schematic, docs0, ops, 0) == Err::<
                        Docs,
                        ErrorView,
                    >(e@),
                },
            decreases ops.len() - i, (if failure is None { 1int } else { 0int }),
        {
            let op = &transaction.operations[i];
            let id = match &op.command {
                Command::Insert { id, .. } => id,
                Command::Update { header, .. } => &header.id,
                Command::Delete { header } => &header.id,
            };
            let previous = self.get(&op.collection, id);
            let ghost before = self.docs();
            match self.apply_operation(op) {
                Ok(result) => {
                    let ghost old_undo = undo@;
                    let ghost old_states = states;
                    results.push(result);
                    undo.push(Undo { collection: op.collection.clone(), id: id.clone(), previous });
                    proof {
                        states = states.push(self.docs());
                        let key = (op.collection@, id@);
                        assert(exists|image: Option<DocumentView>|
                            self.docs() == assign_document(before, key, image)) by {
                            match decide(before, op.collection, op.command) {
                                Ok(Some(d)) => {
                                    assert(self.docs() == assign_document(before, key, Some(d)));
                                },
                                _ => {
                                    assert(self.docs() == assign_document(
                                        before,
                                        key,
                                        None::<DocumentView>,
                                    ));
                                },
                            }
                        }
                        assert forall|j: int| 0 <= j < undo@.len() implies {
                            let step = #[trigger] undo@[j];
                            &&& schematic.has_collection(step.collection@)
                            &&& image_view(step.previous) == lookup_document(
                                states[j],
                                (step.collection@, step.id@),
                            )
                            &&& (step.previous matches Some(d) ==> d.header.id@ == step.id@
                                && d.header.id.wf())
                            &&& exists|image: Option<DocumentView>|
                                states[j + 1] == assign_document(
                                    states[j],
                                    (step.collection@, step.id@),
                                    image,
                                )
                        } by {
                            if j < old_undo.len() {
                                assert(undo@[j] == old_undo[j]);
                                assert(states[j] == old_states[j]);
                                assert(states[j + 1] == old_states[j + 1]);
                            } else {
                                assert(states[j] == before);
                                assert(states[j + 1] == self.docs());
                            }
                        }
                    }
                    i += 1;
                },
                Err(e) => {
                    failure = Some(e);
                },
            }
        }
        match failure {
            None => {
                let ghost before_log = self.log();
                let applied = crate::transaction::copy_results(&results);
                self.log.push(Executed { id: 0, results: applied, timestamp: now });
                let id = self.log.len() as u64;
                let last = self.log.len() - 1;
                let ghost middle = self.log@;
                self.log[last].id = id;
                proof {
                    assert(results_view(results) =~= spec_results(ops));
                    assert(self.log() =~= before_log.push(
                        ExecutedView {
                            id: (before_log.len() + 1) as u64,
                            results: spec_results(ops),
                            timestamp: now,
                        },
                    ));
                    assert(self.docs() =~= states.last());
                }
                Ok(results)
            },
            Some(e) => {
                while undo.len() > 0
                    invariant
                        self.structured(),
                        self.in_sync(),
                        self.log_wf(),
                        self.schematic() == schematic,
                        self.log() == old(self).log(),
                        states.len() >= undo@.len() + 1,
                        states[0] == docs0,
                        docs_valid::<S>(schematic.views(), docs0),
                        self.docs() == states[undo@.len() as int],
                        forall|j: int|
                            0 <= j < undo@.len() ==> {
                                let step = #[trigger] undo@[j];
                                &&& schematic.has_collection(step.collection@)
                                &&& image_view(step.previous) == lookup_document(
                                    states[j],
                                    (step.collection@, step.id@),
                                )
                                &&& (step.previous matches Some(d) ==> d.header.id@ == step.id@
                                    && d.header.id.wf())
                                &&& exists|image: Option<DocumentView>|
                                    states[j + 1] == assign_document(
                                        states[j],
                                        (step.collection@, step.id@),
                                        image,
                                    )
                            },
                    decreases undo@.len(),
                {
                    let ghost old_undo = undo@;
                    let step = undo.pop().unwrap();
                    let ghost j = undo@.len() as int;
                    proof {
                        assert(step == old_undo[j]);
                        assert forall|a: int| 0 <= a < undo@.len() implies undo@[a] == old_undo[a] by {}
                    }
                    let Undo { collection, id, previous } = step;
                    self.put_image(&collection, &id, previous);
                    proof {
                        let key = (collection@, id@);
                        assert(self.docs() =~= states[j]);
                    }
                }
                proof {
                    assert(self.docs() == docs0);
                }
                Err(e)
            },
        }
    }

    /// The id of the last transaction that was applied, if any was: the
    /// number of transactions that were applied.
    pub fn last_transaction_id(&self) -> (id: Option<u64>)
        requires
            self.wf(),
        ensures
            id == last_id(self.log()),
            id == (if self.log().len() == 0 {
                None
            } else {
                Some(self.log().len() as u64)
            }),
    {
        proof {
            lemma_last_id(self.log());
        }
        if self.log.len() == 0 {
            None
        } else {
            Some(self.log[self.log.len() - 1].id)
        }
    }

    /// The documents of `collection` with an id in `ids`, in the order
    /// `order` of their ids, and at most `limit` of them. Fails with
    /// `CollectionNotFound` if the schema lacks the collection.
    pub fn list(
        &self,
        collection: &CollectionName,
        ids: &Range<DocumentId>,
        order: Sort,
        limit: Option<u32>,
    ) -> (r: Result<Vec<OwnedDocument>, Error>)
        requires
            self.structured(),
        ensures
            match r {
                Ok(found) => self.schematic().has_collection(collection@) && documents_view(found)
                    == select(
                    self.documents_in_order(collection@),
                    id_filter(id_range_view(*ids)),
                    order is Descending,
                    limit,
                ),
                Err(e) => !self.schematic().has_collection(collection@) && e@
                    == ErrorView::CollectionNotFound,
            },
    {
        let stored = match self.collections.get(collection) {
            Some(stored) => stored,
            None => { return Err(Error::CollectionNotFound); },
        };
        let descending = match order {
            Sort::Ascending => false,
            Sort::Descending => true,
        };
        let ghost all = ordered(self.documents_in_order(collection@), descending);
        let ghost keep = id_filter(id_range_view(*ids));
        let n = stored.len();
        let mut found: Vec<OwnedDocument> = Vec::new();
        let mut i: usize = 0;
        proof {
            lemma_select_none(all, keep, limit);
        }
        while i < n
            invariant
                n == stored.pairs().len(),
                i <= n,
                all == ordered(self.documents_in_order(collection@), descending),
                all.len() == n,
                self.collections@.contains_key(collection@),
                *stored == self.collections@[collection@],
                keep == id_filter(id_range_view(*ids)),
                documents_view(found) == limited(all.take(i as int).filter(keep), limit),
            decreases n - i,
        {
            let p = position(n, i, descending);
            let document = stored.value_at(p);
            proof {
                lemma_ordered_at(self.documents_in_order(collection@), descending, i as int);
                lemma_select_step(all, keep, limit, i as int);
            }
            let room = match limit {
                Some(most) => found.len() < most as usize,
                None => true,
            };
            if room && id_in_range(ids, document.header.id.as_bytes()) {
                let ghost before = documents_view(found);
                found.push(document.clone());
                assert(documents_view(found) =~= before.push(all[i as int]));
            }
            i += 1;
        }
        assert(all.take(n as int) =~= all);
        Ok(found)
    }

    /// The number of documents of `collection` with an id in `ids`. Fails
    /// with `CollectionNotFound` if the schema lacks the collection.
    pub fn count(&self, collection: &CollectionName, ids: &Range<DocumentId>) -> (r: Result<
        u64,
        Error,
    >)
        requires
            self.structured(),
        ensures
            match r {
                Ok(n) => self.schematic().has_collection(collection@) && n == select(
                    self.documents_in_order(collection@),
                    id_filter(id_range_view(*ids)),
                    false,
                    None,
                ).len(),
                Err(e) => !self.schematic().has_collection(collection@) && e@
                    == ErrorView::CollectionNotFound,
            },
    {
        let stored = match self.collections.get(collection) {
            Some(stored) => stored,
            None => { return Err(Error::CollectionNotFound); },
        };
        let ghost all = self.documents_in_order(collection@);
        let ghost keep = id_filter(id_range_view(*ids));
        let n = stored.len();
        let mut counted: u64 = 0;
        let mut i: usize = 0;
        proof {
            lemma_select_none(all, keep, None);
        }
        while i < n
            invariant
                n == stored.pairs().len(),
                i <= n,
                all == self.documents_in_order(collection@),
                all.len() == n,
                self.collections@.contains_key(collection@),
                *stored == self.collections@[collection@],
                keep == id_filter(id_range_view(*ids)),
                counted == all.take(i as int).filter(keep).len(),
                counted <= i,
            decreases n - i,
        {
            let document = stored.value_at(i);
            proof {
                lemma_select_step(all, keep, None, i as int);
            }
            if id_in_range(ids, document.header.id.as_bytes()) {
                counted += 1;
            }
            i += 1;
        }
        assert(all.take(n as int) =~= all);
        Ok(counted)
    }

    /// The documents of `collection` with the ids `ids`, in the order of
    /// `ids`; an id without a document is passed over.
    pub fn get_multiple(&self, collection: &CollectionName, ids: &Vec<DocumentId>) -> (found: Vec<
        OwnedDocument,
    >)
        requires
            self.structured(),
        ensures
            documents_view(found) == gathered(
                self.docs(),
                collection@,
                Seq::new(ids@.len(), |i: int| ids@[i]@),
            ),
    {
        let ghost wanted = Seq::new(ids@.len(), |i: int| ids@[i]@);
        let mut found: Vec<OwnedDocument> = Vec::new();
        let mut i: usize = 0;
        proof {
            assert(wanted.take(0) =~= Seq::<Seq<u8>>::empty());
            assert(documents_view(found) =~= gathered(self.docs(), collection@, wanted.take(0)));
        }
        while i < ids.len()
            invariant
                self.structured(),
                i <= ids@.len(),
                wanted == Seq::new(ids@.len(), |i: int| ids@[i]@),
                documents_view(found) == gathered(self.docs(), collection@, wanted.take(i as int)),
            decreases ids@.len() - i,
        {
            proof {
                assert(wanted.take(i + 1).drop_last() =~= wanted.take(i as int));
                assert(wanted.take(i + 1).last() == ids@[i as int]@);
            }
            match self.get(collection, &ids[i]) {
                Some(d) => {
                    let ghost before = documents_view(found);
                    found.push(d);
                    assert(documents_view(found) =~= before.push(d@));
                },
                None => {},
            }
            i += 1;
        }
        assert(wanted.take(ids@.len() as int) =~= wanted);
        found
    }

    /// The records of the transactions with an id from `starting_id` on,
    /// oldest first, and at most `result_limit` of them: their ids follow
    /// one another without a gap.
    pub fn list_executed(&self, starting_id: Option<u64>, result_limit: Option<u32>) -> (found: Vec<
        Executed,
    >)
        requires
            self.wf(),
        ensures
            records_view(found) == select(self.log(), from_id(starting_id), false, result_limit),
            records_view(found) == limited(
                self.log().skip(skipped(starting_id, self.log().len())),
                result_limit,
            ),
            forall|i: int|
                0 <= i < found@.len() ==> (#[trigger] found@[i]).id == skipped(
                    starting_id,
                    self.log().len(),
                ) + 1 + i,
    {
        let ghost all = self.log();
        let ghost keep = from_id(starting_id);
        proof {
            lemma_from_id(all, starting_id);
        }
        let n = self.log.len();
        let mut found: Vec<Executed> = Vec::new();
        let mut i: usize = 0;
        proof {
            lemma_select_none(all, keep, result_limit);
        }
        while i < n
            invariant
                n == self.log@.len(),
                i <= n,
                all == self.log(),
                keep == from_id(starting_id),
                records_view(found) == limited(all.take(i as int).filter(keep), result_limit),
            decreases n - i,
        {
            let record = &self.log[i];
            proof {
                lemma_select_step(all, keep, result_limit, i as int);
            }
            let room = match result_limit {
                Some(most) => found.len() < most as usize,
                None => true,
            };
            let wanted = match starting_id {
                Some(id) => record.id >= id,
                None => true,
            };
            if room && wanted {
                let ghost before = records_view(found);
                found.push(record.clone());
                assert(records_view(found) =~= before.push(all[i as int]));
            }
            i += 1;
        }
        assert(all.take(n as int) =~= all);
        proof {
            let rest = all.skip(skipped(starting_id, all.len()));
            assert forall|i: int| 0 <= i < found@.len() implies (#[trigger] found@[i]).id
                == skipped(starting_id, all.len()) + 1 + i by {
                assert(records_view(found)[i] == found@[i]@);
                assert(limited(rest, result_limit)[i] == rest[i]);
            }
        }
        found
    }

    /// The entries of `view` with a key that `key` lets pass, in the order
    /// `order` of their keys, and at most `limit` of them. Fails with
    /// `ViewNotFound` if the schema lacks the view.
    ///
    /// The indexes follow every transaction, so that the entries are those
    /// of the documents as they are, whatever the access policy.
    pub fn query(
        &self,
        view: &ViewName,
        key: &Option<QueryKey<Vec<u8>>>,
        order: Sort,
        limit: Option<u32>,
        access_policy: AccessPolicy,
    ) -> (r: Result<Vec<Serialized>, Error>)
        requires
            self.structured(),
        ensures
            match r {
                Ok(found) => self.schematic().has_view(view@) && entries_view(found) == select(
                    self.entries_in_order(view@),
                    key_filter(*key),
                    order is Descending,
                    limit,
                ) && forall|i: int|
                    0 <= i < found@.len() ==> (#[trigger] found@[i]).source.id.wf(),
                Err(e) => !self.schematic().has_view(view@) && e@ == ErrorView::ViewNotFound,
            },
    {
        let stored = match self.indexes.get(view) {
            Some(stored) => stored,
            None => { return Err(Error::ViewNotFound); },
        };
        let descending = match order {
            Sort::Ascending => false,
            Sort::Descending => true,
        };
        let ghost all = ordered(self.entries_in_order(view@), descending);
        let ghost keep = key_filter(*key);
        let n = stored.len();
        let mut found: Vec<Serialized> = Vec::new();
        let mut i: usize = 0;
        proof {
            lemma_select_none(all, keep, limit);
        }
        while i < n
            invariant
                n == stored.pairs().len(),
                i <= n,
                all == ordered(self.entries_in_order(view@), descending),
                all.len() == n,
                self.indexes@.contains_key(view@),
                *stored == self.indexes@[view@],
                stored.wf(),
                entries_fit(stored@),
                keep == key_filter(*key),
                entries_view(found) == limited(all.take(i as int).filter(keep), limit),
                forall|j: int| 0 <= j < found@.len() ==> (#[trigger] found@[j]).source.id.wf(),
            decreases n - i,
        {
            let p = position(n, i, descending);
            let stored_entry = stored.value_at(p);
            proof {
                lemma_ordered_at(self.entries_in_order(view@), descending, i as int);
                lemma_select_step(all, keep, limit, i as int);
            }
            let room = match limit {
                Some(most) => found.len() < most as usize,
                None => true,
            };
            proof {
                lemma_in_map::<EntryKey, Serialized>(stored.pairs(), p as int);
            }
            if room && key_passes(key, stored_entry.key.as_slice()) {
                let ghost before = entries_view(found);
                let ghost old_found = found@;
                found.push(stored_entry.clone());
                proof {
                    assert(entries_view(found) =~= before.push(all[i as int]));
                    assert forall|j: int| 0 <= j < found@.len() implies (
                    #[trigger] found@[j]).source.id.wf() by {
                        if j < old_found.len() {
                            assert(found@[j] == old_found[j]);
                        }
                    }
                }
            }
            i += 1;
        }
        assert(all.take(n as int) =~= all);
        Ok(found)
    }

    /// The entries that [`Documents::query`] returns, each with its
    /// document: the document at an index is the one that `get` returns
    /// for the source of the entry at that index.
    pub fn query_with_docs(
        &self,
        view: &ViewName,
        key: &Option<QueryKey<Vec<u8>>>,
        order: Sort,
        limit: Option<u32>,
        access_policy: AccessPolicy,
    ) -> (r: Result<MappedSerializedDocuments, Error>)
        requires
            self.structured(),
            self.in_sync(),
        ensures
            match r {
                Ok(found) => {
                    &&& self.schematic().has_view(view@)
                    &&& entries_view(found.mappings) == select(
                        self.entries_in_order(view@),
                        key_filter(*key),
                        order is Descending,
                        limit,
                    )
                    &&& found.documents@.len() == found.mappings@.len()
                    &&& forall|i: int|
                        0 <= i < found.mappings@.len() ==> self.docs().contains_key(
                            (view.collection@, (#[trigger] found.mappings@[i]).source.id@),
                        ) && found.documents@[i]@ == self.docs()[(
                            view.collection@,
                            found.mappings@[i].source.id@,
                        )]
                },
                Err(e) => !self.schematic().has_view(view@) && e@ == ErrorView::ViewNotFound,
            },
    {
        let mappings = match self.query(view, key, order, limit, access_policy) {
            Ok(mappings) => mappings,
            Err(e) => { return Err(e); },
        };
        let ghost place = choose|p: int|
            0 <= p < self.schematic().views().len() && (#[trigger] self.schematic().views()[p]).name@
                == view@;
        proof {
            self.lemma_query_answers(place, *key, order is Descending, limit);
        }
        let ghost found = entries_view(mappings);
        let mut documents: Vec<OwnedDocument> = Vec::new();
        let mut i: usize = 0;
        while i < mappings.len()
            invariant
                self.structured(),
                i <= mappings@.len(),
                documents@.len() == i,
                found == entries_view(mappings),
                forall|j: int|
                    0 <= j < found.len() ==> derived::<S>(view@, self.docs()).contains_key(
                        ((#[trigger] found[j]).key, found[j].source),
                    ),
                forall|j: int|
                    0 <= j < i ==> self.docs().contains_key(
                        (view.collection@, (#[trigger] mappings@[j]).source.id@),
                    ) && documents@[j]@ == self.docs()[(
                        view.collection@,
                        mappings@[j].source.id@,
                    )],
            decreases mappings@.len() - i,
        {
            proof {
                assert(found[i as int] == mappings@[i as int]@);
                assert(derived::<S>(view@, self.docs()).contains_key(
                    (found[i as int].key, found[i as int].source),
                ));
            }
            match self.get(&view.collection, &mappings[i].source.id) {
                Some(d) => {
                    documents.push(d);
                },
                None => {},
            }
            i += 1;
        }
        Ok(MappedSerializedDocuments { mappings, documents })
    }

    /// The reduction of the values of the entries of `view` with a key that
    /// `key` lets pass, taken in the order of their keys. Fails with
    /// `ViewNotFound` if the schema lacks the view, and with the error of
    /// the reduce function where that fails.
    pub fn reduce(
        &self,
        view: &ViewName,
        key: &Option<QueryKey<Vec<u8>>>,
        access_policy: AccessPolicy,
    ) -> (r: Result<Vec<u8>, Error>)
        requires
            self.structured(),
        ensures
            if self.schematic().has_view(view@) {
                reduce_result_view(r) == S::spec_reduce(
                    view@,
                    values_of(select(self.entries_in_order(view@), key_filter(*key), false, None)),
                )
            } else {
                r matches Err(e) && e@ == ErrorView::ViewNotFound
            },
    {
        let mappings = match self.query(view, key, Sort::Ascending, None, access_policy) {
            Ok(mappings) => mappings,
            Err(e) => { return Err(e); },
        };
        let mut values: Vec<Vec<u8>> = Vec::new();
        let mut i: usize = 0;
        while i < mappings.len()
            invariant
                i <= mappings@.len(),
                values@.len() == i,
                forall|j: int| 0 <= j < i ==> (#[trigger] values@[j])@ == mappings@[j].value@,
            decreases mappings@.len() - i,
        {
            values.push(crate::codec::copy_bytes(mappings[i].value.as_slice()));
            i += 1;
        }
        assert(values_view(values) =~= values_of(entries_view(mappings)));
        S::reduce(view, &values)
    }

    /// The reductions of the values of the entries of `view` with a key
    /// that `key` lets pass, one for each key, in the order of the keys.
    /// Fails with `ViewNotFound` if the schema lacks the view, and with the
    /// error of the reduce function for the first key for which it fails.
    pub fn reduce_grouped(
        &self,
        view: &ViewName,
        key: &Option<QueryKey<Vec<u8>>>,
        access_policy: AccessPolicy,
    ) -> (r: Result<Vec<MappedSerializedValue>, Error>)
        requires
            self.structured(),
        ensures
            if self.schematic().has_view(view@) {
                let groups = grouped(
                    select(self.entries_in_order(view@), key_filter(*key), false, None),
                );
                match r {
                    Ok(values) => reduced_groups::<S>(view@, groups, groups.len()) == Ok::<
                        Seq<(Seq<u8>, Seq<u8>)>,
                        ErrorView,
                    >(reductions_view(values)),
                    Err(e) => reduced_groups::<S>(view@, groups, groups.len()) == Err::<
                        Seq<(Seq<u8>, Seq<u8>)>,
                        ErrorView,
                    >(e@),
                }
            } else {
                r matches Err(e) && e@ == ErrorView::ViewNotFound
            },
    {
        let mappings = match self.query(view, key, Sort::Ascending, None, access_policy) {
            Ok(mappings) => mappings,
            Err(e) => { return Err(e); },
        };
        let ghost entries = entries_view(mappings);
        let mut groups: Vec<(Vec<u8>, Vec<Vec<u8>>)> = Vec::new();
        let mut i: usize = 0;
        proof {
            assert(entries.take(0) =~= Seq::<SerializedView>::empty());
            assert(groups_view(groups) =~= grouped(entries.take(0)));
        }
        while i < mappings.len()
            invariant
                i <= mappings@.len(),
                entries == entries_view(mappings),
                groups_view(groups) == grouped(entries.take(i as int)),
            decreases mappings@.len() - i,
        {
            let ghost before = groups_view(groups);
            let ghost old_groups = groups@;
            proof {
                assert(entries.take(i + 1).drop_last() =~= entries.take(i as int));
                assert(entries.take(i + 1).last() == entries[i as int]);
            }
            let n = groups.len();
            let same = n > 0 && crate::order::bytes_equal(
                groups[n - 1].0.as_slice(),
                mappings[i].key.as_slice(),
            );
            if same {
                groups[n - 1].1.push(crate::codec::copy_bytes(mappings[i].value.as_slice()));
                proof {
                    assert(groups@[n - 1].0 == old_groups[n - 1].0);
                    assert(values_view(groups@[n - 1].1) =~= values_view(old_groups[n - 1].1).push(
                        entries[i as int].value,
                    ));
                    assert(groups_view(groups) =~= before.drop_last().push(
                        (entries[i as int].key, before.last().1.push(entries[i as int].value)),
                    ));
                }
            } else {
                let mut values: Vec<Vec<u8>> = Vec::new();
                values.push(crate::codec::copy_bytes(mappings[i].value.as_slice()));
                groups.push((crate::codec::copy_bytes(mappings[i].key.as_slice()), values));
                proof {
                    assert(values_view(values) =~= seq![entries[i as int].value]);
                    assert(groups_view(groups) =~= before.push(
                        (entries[i as int].key, seq![entries[i as int].value]),
                    ));
                }
            }
            i += 1;
        }
        proof {
            assert(entries.take(mappings@.len() as int) =~= entries);
        }
        let ghost all = groups_view(groups);
        let mut reduced: Vec<MappedSerializedValue> = Vec::new();
        let mut j: usize = 0;
        proof {
            assert(reductions_view(reduced) =~= Seq::empty());
        }
        while j < groups.len()
            invariant
                j <= groups@.len(),
                all == groups_view(groups),
                self.schematic().has_view(view@),
                all == grouped(
                    select(self.entries_in_order(view@), key_filter(*key), false, None),
                ),
                reduced_groups::<S>(view@, all, j as nat) == Ok::<
                    Seq<(Seq<u8>, Seq<u8>)>,
                    ErrorView,
                >(reductions_view(reduced)),
            decreases groups@.len() - j,
        {
            let ghost before = reductions_view(reduced);
            match S::reduce(view, &groups[j].1) {
                Ok(value) => {
                    reduced.push(
                        MappedSerializedValue {
                            key: crate::codec::copy_bytes(groups[j].0.as_slice()),
                            value,
                        },
                    );
                    proof {
                        assert(reductions_view(reduced) =~= before.push((all[j as int].0, value@)));
                    }
                },
                Err(e) => {
                    proof {
                        assert(values_view(groups@[j as int].1) == all[j as int].1);
                        assert(reduced_groups::<S>(view@, all, (j + 1) as nat) == Err::<
                            Seq<(Seq<u8>, Seq<u8>)>,
                            ErrorView,
                        >(e@));
                        lemma_reduction_fails::<S>(view@, all, (j + 1) as nat, all.len());
                    }
                    return Err(e);
                },
            }
            j += 1;
        }
        Ok(reduced)
    }

    /// Deletes, in one transaction at the time `now`, every document for
    /// which `view` holds an entry with a key that `key` lets pass, and
    /// returns the number of these documents. Fails with `ViewNotFound`,
    /// and changes nothing, if the schema lacks the view.
    pub fn delete_docs(
        &mut self,
        view: &ViewName,
        key: &Option<QueryKey<Vec<u8>>>,
        access_policy: AccessPolicy,
        now: Timestamp,
    ) -> (r: Result<u64, Error>)
        requires
            old(self).wf(),
        ensures
            final(self).wf(),
            final(self).schematic() == old(self).schematic(),
            if old(self).schematic().has_view(view@) {
                let sources = matching_sources::<S>(view@, old(self).docs(), *key);
                &&& r matches Ok(n)
                &&& sources.finite()
                &&& n == sources.len()
                &&& final(self).docs() == old(self).docs().remove_keys(
                    keys_of(view.collection@, sources),
                )
                &&& final(self).log().len() == old(self).log().len() + 1
                &&& final(self).log().drop_last() == old(self).log()
                &&& last_id(final(self).log()) == Some((old(self).log().len() + 1) as u64)
            } else {
                &&& r matches Err(e)
                &&& e@ == ErrorView::ViewNotFound
                &&& final(self).docs() == old(self).docs()
                &&& final(self).log() == old(self).log()
            },
    {
        let mappings = match self.query(view, key, Sort::Ascending, None, access_policy) {
            Ok(mappings) => mappings,
            Err(e) => { return Err(e); },
        };
        let ghost docs = self.docs();
        let ghost collection = view.collection@;
        let ghost place = choose|p: int|
            0 <= p < self.schematic().views().len() && (#[trigger] self.schematic().views()[p]).name@
                == view@;
        let ghost index = derived::<S>(view@, docs);
        let ghost found = entries_view(mappings);
        proof {
            self.lemma_query_answers(place, *key, false, None);
            assert(self.schematic().has_collection(self.schematic().views()[place].name.collection@));
        }
        let mut operations: Vec<Operation> = Vec::new();
        let mut i: usize = 0;
        while i < mappings.len()
            invariant
                i <= mappings@.len(),
                found == entries_view(mappings),
                index == derived::<S>(view@, docs),
                collection == view.collection@,
                forall|j: int|
                    0 <= j < found.len() ==> key_matches(*key, (#[trigger] found[j]).key)
                        && index.contains_key((found[j].key, found[j].source)) && index[(
                        found[j].key,
                        found[j].source,
                    )] == found[j],
                forall|j: int| 0 <= j < mappings@.len() ==> (#[trigger] mappings@[j]).source.id.wf(),
                deletes_present(docs, collection, operations@, 0),
                forall|a: int|
                    0 <= a < operations@.len() ==> among_sources(
                        found,
                        i as int,
                        command_id((#[trigger] operations@[a]).command),
                    ),
                forall|j: int|
                    0 <= j < i ==> ids_from(operations@, 0).contains((#[trigger] found[j]).source),
            decreases mappings@.len() - i,
        {
            let source = &mappings[i].source;
            let ghost old_ops = operations@;
            proof {
                assert(found[i as int] == mappings@[i as int]@);
                assert(index.contains_key((found[i as int].key, found[i as int].source)));
            }
            let mut known = false;
            let mut a: usize = 0;
            while a < operations.len()
                invariant
                    a <= operations@.len(),
                    known <==> exists|b: int|
                        0 <= b < a && command_id((#[trigger] operations@[b]).command)
                            == source.id@,
                decreases operations@.len() - a,
            {
                let other = match &operations[a].command {
                    Command::Insert { id, .. } => id,
                    Command::Update { header, .. } => &header.id,
                    Command::Delete { header } => &header.id,
                };
                if crate::assoc::KeyEq::key_eq(other, &source.id) {
                    known = true;
                }
                a += 1;
            }
            if !known {
                operations.push(
                    Operation {
                        collection: view.collection.clone(),
                        command: Command::Delete { header: source.clone() },
                    },
                );
                proof {
                    let last = old_ops.len() as int;
                    assert(command_id(operations@[last].command) == found[i as int].source);
                    assert forall|j: int| 0 <= j < operations@.len() implies {
                        let op = #[trigger] operations@[j];
                        &&& op.collection@ == collection
                        &&& op.command matches Command::Delete { header }
                        &&& command_id(op.command).len() <= MAX_ID_LENGTH
                        &&& docs.contains_key((collection, command_id(op.command)))
                        &&& docs[(collection, command_id(op.command))].revision
                            == op.command->Delete_header.revision.id
                    } by {
                        if j < last {
                            assert(operations@[j] == old_ops[j]);
                        }
                    }
                    assert forall|x: int, y: int| 0 <= x < y < operations@.len() implies command_id(
                        (#[trigger] operations@[x]).command,
                    ) != command_id((#[trigger] operations@[y]).command) by {
                        assert(operations@[x] == old_ops[x]);
                        if y < last {
                            assert(operations@[y] == old_ops[y]);
                        }
                    }
                }
            }
            proof {
                assert forall|x: int| 0 <= x < operations@.len() implies among_sources(
                    found,
                    i + 1,
                    command_id((#[trigger] operations@[x]).command),
                ) by {
                    if x < old_ops.len() {
                        assert(operations@[x] == old_ops[x]);
                        assert(among_sources(found, i as int, command_id(old_ops[x].command)));
                        let j = choose|j: int|
                            0 <= j < i && j < found.len() && (#[trigger] found[j]).source
                                == command_id(old_ops[x].command);
                        assert(found[j].source == command_id(operations@[x].command));
                    } else {
                        assert(found[i as int].source == command_id(operations@[x].command));
                    }
                }
                assert forall|j: int| 0 <= j < i + 1 implies ids_from(operations@, 0).contains(
                    (#[trigger] found[j]).source,
                ) by {
                    if j < i {
                        assert(ids_from(old_ops, 0).contains(found[j].source));
                        let x = choose|x: int|
                            0 <= x < old_ops.len() && command_id((#[trigger] old_ops[x]).command)
                                == found[j].source;
                        assert(operations@[x] == old_ops[x]);
                        assert(command_id(operations@[x].command) == found[j].source);
                    } else if known {
                        let x = choose|x: int|
                            0 <= x < old_ops.len() && command_id((#[trigger] old_ops[x]).command)
                                == source.id@;
                        assert(operations@[x] == old_ops[x]);
                        assert(command_id(operations@[x].command) == found[j].source);
                    } else {
                        let x = old_ops.len() as int;
                        assert(command_id(operations@[x].command) == found[j].source);
                    }
                }
            }
            i += 1;
        }
        let ghost sources = matching_sources::<S>(view@, docs, *key);
        let ghost ids = Seq::new(operations@.len(), |a: int| command_id(operations@[a].command));
        proof {
            assert forall|id: Seq<u8>| sources.contains(id) <==> ids_from(operations@, 0).contains(
                id,
            ) by {
                if sources.contains(id) {
                    let k = choose|k: Seq<u8>|
                        #[trigger] index.contains_key((k, id)) && key_matches(*key, k);
                    let j = choose|j: int| 0 <= j < found.len() && #[trigger] found[j] == index[(k, id)];
                    assert(found[j].source == id);
                    assert(ids_from(operations@, 0).contains(found[j].source));
                }
                if ids_from(operations@, 0).contains(id) {
                    let x = choose|x: int|
                        0 <= x < operations@.len() && command_id((#[trigger] operations@[x]).command)
                            == id;
                    assert(among_sources(found, mappings@.len() as int, command_id(operations@[x].command)));
                    let j = choose|j: int|
                        0 <= j < mappings@.len() && j < found.len() && (#[trigger] found[j]).source
                            == command_id(operations@[x].command);
                    assert(index.contains_key((found[j].key, id)));
                }
            }
            assert(sources =~= ids_from(operations@, 0));
            assert(ids.no_duplicates());
            assert forall|id: Seq<u8>| ids.to_set().contains(id) <==> sources.contains(id) by {
                if ids.to_set().contains(id) {
                    let x = choose|x: int| 0 <= x < ids.len() && ids[x] == id;
                    assert(command_id(operations@[x].command) == id);
                }
                if sources.contains(id) {
                    let x = choose|x: int|
                        0 <= x < operations@.len() && command_id((#[trigger] operations@[x]).command)
                            == id;
                    assert(ids[x] == id);
                }
            }
            assert(ids.to_set() =~= sources);
            ids.unique_seq_to_set();
            vstd::seq_lib::seq_to_set_is_finite(ids);
            lemma_deletes_succeed::<S>(self.schematic(), docs, collection, operations@, 0);
        }
        let transaction = Transaction { operations };
        let applied = self.apply_transaction(&transaction, now);
        proof {
            assert(applied is Ok);
            assert(self.log().drop_last() =~= old(self).log());
            assert(results_view(applied->Ok_0).len() == ids.len());
            assert(ids.len() == sources.len());
            assert(sources.finite());
            assert(self.docs() == old(self).docs().remove_keys(keys_of(view.collection@, sources)));
        }
        match applied {
            Ok(results) => Ok(results.len() as u64),
            Err(e) => Err(e),
        }
    }

    /// Asks for the storage of `collection` to be compacted. What is held
    /// in memory has nothing to compact, so that nothing is changed. Fails
    /// with `CollectionNotFound` if the schema lacks the collection.
    pub fn compact_collection(&self, collection: &CollectionName) -> (r: Result<(), Error>)
        requires
            self.structured(),
        ensures
            match r {
                Ok(_) => self.schematic().has_collection(collection@),
                Err(e) => !self.schematic().has_collection(collection@) && e@
                    == ErrorView::CollectionNotFound,
            },
    {
        if self.collections.contains_key(collection) {
            Ok(())
        } else {
            Err(Error::CollectionNotFound)
        }
    }
}

} // verus!
