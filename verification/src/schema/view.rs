//! What a view holds and what a query of it returns.

use crate::document::{Header, OwnedDocument};
use crate::error::{Error, ErrorView};
use vstd::prelude::*;

verus! {

/// One entry of a view: a key and a value that the view's map function
/// emitted for a document.
#[derive(Debug, PartialEq, Eq)]
pub struct Serialized {
    /// The document that the entry was emitted for.
    pub source: Header,
    /// The key, in the byte encoding of the view's key type.
    pub key: Vec<u8>,
    /// The value, in the byte encoding of the view's value type.
    pub value: Vec<u8>,
}

/// The mathematical content of a [`Serialized`] entry.
pub struct SerializedView {
    /// The id of the document that the entry was emitted for.
    pub source: Seq<u8>,
    /// The revision of that document.
    pub revision: u64,
    /// The key.
    pub key: Seq<u8>,
    /// The value.
    pub value: Seq<u8>,
}

impl View for Serialized {
    type V = SerializedView;

    open spec fn view(&self) -> SerializedView {
        SerializedView {
            source: self.source.id@,
            revision: self.source.revision.id,
            key: self.key@,
            value: self.value@,
        }
    }
}

impl Clone for Serialized {
    fn clone(&self) -> (r: Serialized)
        ensures
            r@ == self@,
            r.source.id.wf() == self.source.id.wf(),
    {
        Serialized {
            source: self.source.clone(),
            key: crate::codec::copy_bytes(self.key.as_slice()),
            value: crate::codec::copy_bytes(self.value.as_slice()),
        }
    }
}

/// The entries that a query matched, with the document of each: the
/// document at an index is the source of the entry at that index.
#[derive(Clone, Debug, PartialEq, Eq)]
pub struct MappedSerializedDocuments {
    /// The entries.
    pub mappings: Vec<Serialized>,
    /// Their documents.
    pub documents: Vec<OwnedDocument>,
}

/// A key with the reduction of the values that the view holds under it.
#[derive(Clone, Debug, PartialEq, Eq)]
pub struct MappedSerializedValue {
    /// The key.
    pub key: Vec<u8>,
    /// The reduced value.
    pub value: Vec<u8>,
}

/// A key and a value that a map function emits for a document.
#[derive(Debug, PartialEq, Eq)]
pub struct Mapping {
    /// The key, in the byte encoding of the view's key type.
    pub key: Vec<u8>,
    /// The value, in the byte encoding of the view's value type.
    pub value: Vec<u8>,
}

/// What a map function emits for a document: keys with their values, in
/// the order in which they were emitted.
pub type Emitted = Seq<(Seq<u8>, Seq<u8>)>;

/// The mathematical content of a list of mappings.
pub open spec fn mappings_view(m: Vec<Mapping>) -> Emitted {
    Seq::new(m@.len(), |i: int| (m@[i].key@, m@[i].value@))
}

/// The mathematical content of what a map function returns.
pub open spec fn map_result_view(r: Result<Vec<Mapping>, Error>) -> Result<Emitted, ErrorView> {
    match r {
        Ok(m) => Ok(mappings_view(m)),
        Err(e) => Err(e@),
    }
}

/// The mathematical content of a list of byte strings.
pub open spec fn values_view(values: Vec<Vec<u8>>) -> Seq<Seq<u8>> {
    Seq::new(values@.len(), |i: int| values@[i]@)
}

/// The mathematical content of what a reduce function returns.
pub open spec fn reduce_result_view(r: Result<Vec<u8>, Error>) -> Result<Seq<u8>, ErrorView> {
    match r {
        Ok(v) => Ok(v@),
        Err(e) => Err(e@),
    }
}

} // verus!
