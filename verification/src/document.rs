//! Documents and their ids.

use crate::codec::{
    copy_bytes, encode_bytes, encode_u64, lemma_parse_bytes, lemma_parse_u64, parse_bytes,
    parse_u64, read_bytes, read_u64, write_bytes, write_u64,
};
use crate::error::{Error, ErrorView};
use crate::order::bytes_equal;
use vstd::bytes::{spec_u64_to_le_bytes, u64_to_le_bytes};
use vstd::prelude::*;

verus! {

/// The greatest length of a document id, in bytes.
pub const MAX_ID_LENGTH: usize = 63;

/// The id of a document: at most 63 bytes. Ids are ordered as byte strings.
#[derive(Debug, PartialEq, Eq, Hash)]
pub struct DocumentId {
    bytes: Vec<u8>,
}

impl View for DocumentId {
    type V = Seq<u8>;

    closed spec fn view(&self) -> Seq<u8> {
        self.bytes@
    }
}

impl Clone for DocumentId {
    fn clone(&self) -> (r: DocumentId)
        ensures
            r@ == self@,
            r.wf() == self.wf(),
    {
        DocumentId { bytes: copy_bytes(self.bytes.as_slice()) }
    }
}

impl crate::assoc::KeyEq for DocumentId {
    fn key_eq(&self, other: &Self) -> (r: bool) {
        bytes_equal(self.bytes.as_slice(), other.bytes.as_slice())
    }
}

/// The id that stands for a number: its eight bytes, most significant first,
/// so that ids are ordered as their numbers are.
pub open spec fn id_of_u64(v: u64) -> Seq<u8> {
    spec_u64_to_le_bytes(v).reverse()
}

impl DocumentId {
    /// The invariant of an id: it is at most 63 bytes long.
    pub open spec fn wf(&self) -> bool {
        self@.len() <= MAX_ID_LENGTH
    }

    /// The id with these bytes, of which there may be at most 63.
    pub fn new(bytes: &[u8]) -> (r: Result<DocumentId, Error>)
        ensures
            match r {
                Ok(id) => bytes@.len() <= MAX_ID_LENGTH && id@ == bytes@ && id.wf(),
                Err(e) => bytes@.len() > MAX_ID_LENGTH && e@ == ErrorView::DocumentIdTooLong,
            },
    {
        if bytes.len() > MAX_ID_LENGTH {
            Err(Error::DocumentIdTooLong)
        } else {
            Ok(DocumentId { bytes: copy_bytes(bytes) })
        }
    }

    /// The id that stands for the number `v`.
    pub fn from_u64(v: u64) -> (id: DocumentId)
        ensures
            id@ == id_of_u64(v),
            id@.len() == 8,
            id.wf(),
    {
        let le = u64_to_le_bytes(v);
        let mut bytes: Vec<u8> = Vec::new();
        let mut i: usize = 8;
        while i > 0
            invariant
                le@.len() == 8,
                i <= 8,
                bytes@.len() == 8 - i,
                forall|j: int| 0 <= j < bytes@.len() ==> bytes@[j] == le@[7 - j],
            decreases i,
        {
            i -= 1;
            bytes.push(le[i]);
        }
        assert(bytes@ =~= le@.reverse());
        DocumentId { bytes }
    }

    /// The bytes of the id.
    pub fn as_bytes(&self) -> (bytes: &[u8])
        ensures
            bytes@ == self@,
    {
        self.bytes.as_slice()
    }
}

/// The revision of a document: a number that grows with each change.
#[derive(Clone, Copy, Debug, PartialEq, Eq, Structural)]
pub struct Revision {
    /// The number of the revision; the first is 0.
    pub id: u64,
}

/// What identifies one state of a document: its id and its revision.
#[derive(Debug, PartialEq, Eq)]
pub struct Header {
    /// The id of the document.
    pub id: DocumentId,
    /// The revision of the document.
    pub revision: Revision,
}

impl Clone for Header {
    fn clone(&self) -> (r: Header)
        ensures
            r.id@ == self.id@,
            r.id.wf() == self.id.wf(),
            r.revision == self.revision,
    {
        Header { id: self.id.clone(), revision: self.revision }
    }
}

/// A document: its header and its contents.
#[derive(Debug, PartialEq, Eq)]
pub struct OwnedDocument {
    /// The id and the revision of the document.
    pub header: Header,
    /// The contents of the document.
    pub contents: Vec<u8>,
}

/// The mathematical content of a document.
pub struct DocumentView {
    /// The id of the document.
    pub id: Seq<u8>,
    /// The revision of the document.
    pub revision: u64,
    /// The contents of the document.
    pub contents: Seq<u8>,
}

impl View for OwnedDocument {
    type V = DocumentView;

    open spec fn view(&self) -> DocumentView {
        DocumentView {
            id: self.header.id@,
            revision: self.header.revision.id,
            contents: self.contents@,
        }
    }
}

impl Clone for OwnedDocument {
    fn clone(&self) -> (r: OwnedDocument)
        ensures
            r@ == self@,
            r.header.id.wf() == self.header.id.wf(),
    {
        OwnedDocument {
            header: self.header.clone(),
            contents: copy_bytes(self.contents.as_slice()),
        }
    }
}

/// The bytes of a document: its id, its revision and its contents.
pub open spec fn encode_document(d: DocumentView) -> Seq<u8> {
    encode_bytes(d.id) + encode_u64(d.revision) + encode_bytes(d.contents)
}

/// Reads a document from the front of `s`.
pub open spec fn parse_document(s: Seq<u8>) -> Option<(DocumentView, Seq<u8>)> {
    match parse_bytes(s) {
        Some((id, rest)) => if id.len() <= MAX_ID_LENGTH {
            match parse_u64(rest) {
                Some((revision, rest)) => match parse_bytes(rest) {
                    Some((contents, rest)) => Some((DocumentView { id, revision, contents }, rest)),
                    None => None,
                },
                None => None,
            }
        } else {
            None
        },
        None => None,
    }
}

/// The document that `bytes` encode: they must hold one document and
/// nothing more.
pub open spec fn decode_document(bytes: Seq<u8>) -> Option<DocumentView> {
    match parse_document(bytes) {
        Some((d, rest)) => if rest.len() == 0 {
            Some(d)
        } else {
            None
        },
        None => None,
    }
}

/// Reading a document written in front of `rest` gives it back.
pub proof fn lemma_parse_document(d: DocumentView, rest: Seq<u8>)
    requires
        d.id.len() <= MAX_ID_LENGTH,
        d.contents.len() <= u64::MAX,
    ensures
        parse_document(encode_document(d) + rest) == Some((d, rest)),
{
    let tail2 = encode_bytes(d.contents) + rest;
    let tail1 = encode_u64(d.revision) + tail2;
    assert(encode_document(d) + rest =~= encode_bytes(d.id) + tail1);
    lemma_parse_bytes(d.id, tail1);
    lemma_parse_u64(d.revision, tail2);
    lemma_parse_bytes(d.contents, rest);
}

/// Decoding the encoding of a document gives the document back.
pub proof fn lemma_document_round_trip(d: DocumentView)
    requires
        d.id.len() <= MAX_ID_LENGTH,
        d.contents.len() <= u64::MAX,
    ensures
        decode_document(encode_document(d)) == Some(d),
{
    assert(encode_document(d) + Seq::<u8>::empty() =~= encode_document(d));
    lemma_parse_document(d, Seq::<u8>::empty());
}

impl OwnedDocument {
    /// The bytes of the document.
    pub fn encode(&self) -> (bytes: Vec<u8>)
        ensures
            bytes@ == encode_document(self@),
    {
        let mut out: Vec<u8> = Vec::new();
        write_bytes(&mut out, self.header.id.as_bytes());
        write_u64(&mut out, self.header.revision.id);
        write_bytes(&mut out, self.contents.as_slice());
        assert(out@ =~= encode_document(self@));
        out
    }

    /// The document that `bytes` encode, or `None` if they encode none.
    pub fn decode(bytes: &[u8]) -> (document: Option<OwnedDocument>)
        ensures
            match document {
                Some(d) => decode_document(bytes@) == Some(d@) && d.header.id.wf(),
                None => decode_document(bytes@) is None,
            },
    {
        assert(bytes@.skip(0) =~= bytes@);
        let (id, next) = match read_bytes(bytes, 0) {
            Some(r) => r,
            None => { return None; },
        };
        if id.len() > MAX_ID_LENGTH {
            return None;
        }
        let (revision, next) = match read_u64(bytes, next) {
            Some(r) => r,
            None => { return None; },
        };
        let (contents, end) = match read_bytes(bytes, next) {
            Some(r) => r,
            None => { return None; },
        };
        if end != bytes.len() {
            return None;
        }
        Some(
            OwnedDocument {
                header: Header { id: DocumentId { bytes: id }, revision: Revision { id: revision } },
                contents,
            },
        )
    }
}

} // verus!
