//! Transactions: batches of changes to documents that are applied together
//! or not at all.

use crate::document::{DocumentId, Header};
use crate::keyvalue::Timestamp;
use crate::schema::CollectionName;
use vstd::prelude::*;

verus! {

/// A change to one document.
#[derive(Clone, Debug, PartialEq, Eq)]
pub enum Command {
    /// Adds a document.
    Insert {
        /// The id of the new document.
        id: DocumentId,
        /// The contents of the new document.
        contents: Vec<u8>,
    },
    /// Replaces the contents of a document that is at the given revision.
    Update {
        /// The id of the document and the revision that it must be at.
        header: Header,
        /// The new contents.
        contents: Vec<u8>,
    },
    /// Removes a document that is at the given revision.
    Delete {
        /// The id of the document and the revision that it must be at.
        header: Header,
    },
}

/// A change to one document of a collection.
#[derive(Clone, Debug, PartialEq, Eq)]
pub struct Operation {
    /// The collection of the document.
    pub collection: CollectionName,
    /// The change.
    pub command: Command,
}

/// A batch of changes.
#[derive(Clone, Debug, PartialEq, Eq)]
pub struct Transaction {
    /// The changes, in the order in which they are applied.
    pub operations: Vec<Operation>,
}

/// What one operation of a transaction did.
#[derive(Debug, PartialEq, Eq)]
pub enum OperationResult {
    /// The operation succeeded, with nothing to report.
    Success,
    /// The document was inserted or updated and has this header now.
    DocumentUpdated {
        /// The collection of the document.
        collection: CollectionName,
        /// The header of the document after the operation.
        header: Header,
    },
    /// The document was removed.
    DocumentDeleted {
        /// The collection of the document.
        collection: CollectionName,
        /// The id of the document.
        id: DocumentId,
    },
}

/// The mathematical content of an [`OperationResult`].
pub enum OperationResultView {
    /// The operation succeeded, with nothing to report.
    Success,
    /// The document was inserted or updated.
    DocumentUpdated {
        /// The collection of the document.
        collection: (Seq<char>, Seq<char>),
        /// The id of the document.
        id: Seq<u8>,
        /// The revision of the document after the operation.
        revision: u64,
    },
    /// The document was removed.
    DocumentDeleted {
        /// The collection of the document.
        collection: (Seq<char>, Seq<char>),
        /// The id of the document.
        id: Seq<u8>,
    },
}

impl View for OperationResult {
    type V = OperationResultView;

    open spec fn view(&self) -> OperationResultView {
        match self {
            OperationResult::Success => OperationResultView::Success,
            OperationResult::DocumentUpdated { collection, header } => {
                OperationResultView::DocumentUpdated {
                    collection: collection@,
                    id: header.id@,
                    revision: header.revision.id,
                }
            },
            OperationResult::DocumentDeleted { collection, id } => {
                OperationResultView::DocumentDeleted { collection: collection@, id: id@ }
            },
        }
    }
}

impl Clone for OperationResult {
    fn clone(&self) -> (r: OperationResult)
        ensures
            r@ == self@,
    {
        match self {
            OperationResult::Success => OperationResult::Success,
            OperationResult::DocumentUpdated { collection, header } => {
                OperationResult::DocumentUpdated {
                    collection: collection.clone(),
                    header: header.clone(),
                }
            },
            OperationResult::DocumentDeleted { collection, id } => {
                OperationResult::DocumentDeleted { collection: collection.clone(), id: id.clone() }
            },
        }
    }
}

/// The mathematical content of a list of results.
pub open spec fn results_view(results: Vec<OperationResult>) -> Seq<OperationResultView> {
    Seq::new(results@.len(), |i: int| results@[i]@)
}

/// The record of a transaction that was applied.
#[derive(Debug, PartialEq, Eq)]
pub struct Executed {
    /// The id of the transaction: one more than that of the one before.
    pub id: u64,
    /// What each of its operations did.
    pub results: Vec<OperationResult>,
    /// When it was applied.
    pub timestamp: Timestamp,
}

/// The mathematical content of an [`Executed`] record.
pub struct ExecutedView {
    /// The id of the transaction.
    pub id: u64,
    /// What each of its operations did.
    pub results: Seq<OperationResultView>,
    /// When it was applied.
    pub timestamp: Timestamp,
}

impl View for Executed {
    type V = ExecutedView;

    open spec fn view(&self) -> ExecutedView {
        ExecutedView { id: self.id, results: results_view(self.results), timestamp: self.timestamp }
    }
}

/// A copy of a list of results.
pub fn copy_results(results: &Vec<OperationResult>) -> (r: Vec<OperationResult>)
    ensures
        results_view(r) == results_view(*results),
{
    let mut r: Vec<OperationResult> = Vec::new();
    let mut i: usize = 0;
    while i < results.len()
        invariant
            i <= results@.len(),
            r@.len() == i,
            forall|j: int| 0 <= j < i ==> (#[trigger] r@[j])@ == results@[j]@,
        decreases results@.len() - i,
    {
        r.push(results[i].clone());
        i += 1;
    }
    assert(results_view(r) =~= results_view(*results));
    r
}

impl Clone for Executed {
    fn clone(&self) -> (r: Executed)
        ensures
            r@ == self@,
    {
        Executed { id: self.id, results: copy_results(&self.results), timestamp: self.timestamp }
    }
}

} // verus!
