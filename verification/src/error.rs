//! The errors of the database.

use crate::codec::{
    encode_bytes, encode_text, encode_u32, lemma_parse_bytes, lemma_parse_text, lemma_parse_u32,
    parse_bytes, parse_text, parse_u32, read_bytes, read_text, read_u32, write_bytes,
    write_text, write_u32,
};
use vstd::prelude::*;
use vstd::string::{StrSliceExecFns, StringExecFns, StringSliceAdditionalSpecFns};
use vstd::utf8::{
    decode_utf8, encode_utf8, encode_utf8_decode_utf8, encode_utf8_valid_utf8, valid_utf8,
};

verus! {

/// What can go wrong in an operation of the database.
#[derive(Debug, PartialEq, Eq)]
pub enum Error {
    /// A name holds a character that names may not hold, or is empty.
    InvalidName(String),
    /// A document id is longer than 63 bytes.
    DocumentIdTooLong,
    /// No schema of this name is registered.
    SchemaNotRegistered(String),
    /// The schema has no such collection.
    CollectionNotFound,
    /// The schema has no such view.
    ViewNotFound,
    /// No database has this name.
    DatabaseNotFound(String),
    /// A database of this name exists already.
    DatabaseNameAlreadyTaken(String),
    /// The name cannot be the name of a database.
    InvalidDatabaseName(String),
    /// The collection has no document with this id.
    DocumentNotFound(String, Vec<u8>),
    /// The document is not at the revision that the operation was made for,
    /// or a document with this id exists already.
    DocumentConflict(String, Vec<u8>),
    /// A unique view would map two documents to the same key.
    UniqueKeyViolation(String, Vec<u8>),
    /// The connection was interrupted.
    Disconnected,
    /// The peer answered with something that does not fit the request.
    UnexpectedResponse(String),
    /// The peer speaks another version of the protocol.
    ProtocolVersionMismatch,
    /// No handler is registered under this name.
    ApiNotRegistered(String),
    /// The credentials do not match.
    InvalidCredentials,
    /// The session may not perform this action on this resource.
    PermissionDenied(String, String),
    /// The session is no longer valid.
    SessionExpired,
    /// No user with this name or id exists.
    UserNotFound,
    /// The backing store failed, or holds what cannot be read.
    Database(String),
    /// An error of the application, passed through.
    Other(String),
    /// No role with this name or id exists.
    RoleNotFound,
    /// No permission group with this name or id exists.
    PermissionGroupNotFound,
    /// No subscriber with this id exists.
    SubscriberNotFound,
}

/// The mathematical content of an [`Error`].
pub enum ErrorView {
    /// A name holds a character that names may not hold, or is empty.
    InvalidName(Seq<char>),
    /// A document id is longer than 63 bytes.
    DocumentIdTooLong,
    /// No schema of this name is registered.
    SchemaNotRegistered(Seq<char>),
    /// The schema has no such collection.
    CollectionNotFound,
    /// The schema has no such view.
    ViewNotFound,
    /// No database has this name.
    DatabaseNotFound(Seq<char>),
    /// A database of this name exists already.
    DatabaseNameAlreadyTaken(Seq<char>),
    /// The name cannot be the name of a database.
    InvalidDatabaseName(Seq<char>),
    /// The collection has no document with this id.
    DocumentNotFound(Seq<char>, Seq<u8>),
    /// The document is not at the expected revision, or exists already.
    DocumentConflict(Seq<char>, Seq<u8>),
    /// A unique view would map two documents to the same key.
    UniqueKeyViolation(Seq<char>, Seq<u8>),
    /// The connection was interrupted.
    Disconnected,
    /// The peer answered with something that does not fit the request.
    UnexpectedResponse(Seq<char>),
    /// The peer speaks another version of the protocol.
    ProtocolVersionMismatch,
    /// No handler is registered under this name.
    ApiNotRegistered(Seq<char>),
    /// The credentials do not match.
    InvalidCredentials,
    /// The session may not perform this action on this resource.
    PermissionDenied(Seq<char>, Seq<char>),
    /// The session is no longer valid.
    SessionExpired,
    /// No user with this name or id exists.
    UserNotFound,
    /// The backing store failed, or holds what cannot be read.
    Database(Seq<char>),
    /// An error of the application, passed through.
    Other(Seq<char>),
    /// No role with this name or id exists.
    RoleNotFound,
    /// No permission group with this name or id exists.
    PermissionGroupNotFound,
    /// No subscriber with this id exists.
    SubscriberNotFound,
}

impl View for Error {
    type V = ErrorView;

    open spec fn view(&self) -> ErrorView {
        match self {
            Error::InvalidName(s) => ErrorView::InvalidName(s@),
            Error::DocumentIdTooLong => ErrorView::DocumentIdTooLong,
            Error::SchemaNotRegistered(s) => ErrorView::SchemaNotRegistered(s@),
            Error::CollectionNotFound => ErrorView::CollectionNotFound,
            Error::ViewNotFound => ErrorView::ViewNotFound,
            Error::DatabaseNotFound(s) => ErrorView::DatabaseNotFound(s@),
            Error::DatabaseNameAlreadyTaken(s) => ErrorView::DatabaseNameAlreadyTaken(s@),
            Error::InvalidDatabaseName(s) => ErrorView::InvalidDatabaseName(s@),
            Error::DocumentNotFound(c, id) => ErrorView::DocumentNotFound(c@, id@),
            Error::DocumentConflict(c, id) => ErrorView::DocumentConflict(c@, id@),
            Error::UniqueKeyViolation(v, k) => ErrorView::UniqueKeyViolation(v@, k@),
            Error::Disconnected => ErrorView::Disconnected,
            Error::UnexpectedResponse(s) => ErrorView::UnexpectedResponse(s@),
            Error::ProtocolVersionMismatch => ErrorView::ProtocolVersionMismatch,
            Error::ApiNotRegistered(s) => ErrorView::ApiNotRegistered(s@),
            Error::InvalidCredentials => ErrorView::InvalidCredentials,
            Error::PermissionDenied(a, r) => ErrorView::PermissionDenied(a@, r@),
            Error::SessionExpired => ErrorView::SessionExpired,
            Error::UserNotFound => ErrorView::UserNotFound,
            Error::Database(s) => ErrorView::Database(s@),
            Error::Other(s) => ErrorView::Other(s@),
            Error::RoleNotFound => ErrorView::RoleNotFound,
            Error::PermissionGroupNotFound => ErrorView::PermissionGroupNotFound,
            Error::SubscriberNotFound => ErrorView::SubscriberNotFound,
        }
    }
}

/// The message of the error that an undecodable entry gives.
pub open spec fn undecodable_entry_message() -> Seq<char> {
    "the stored entry cannot be decoded"@
}

/// The message of the error that arithmetic on a value of bytes gives.
pub open spec fn not_numeric_message() -> Seq<char> {
    "type of stored `Value` is not `Numeric`"@
}

/// The message of the error that arithmetic with floating-point numbers gives.
pub open spec fn float_arithmetic_message() -> Seq<char> {
    "floating-point arithmetic is left to the caller"@
}

impl Error {
    /// The error that an undecodable entry gives.
    pub fn undecodable_entry() -> (e: Error)
        ensures
            e@ == ErrorView::Database(undecodable_entry_message()),
    {
        Error::Database(String::from_str("the stored entry cannot be decoded"))
    }

    /// The error that arithmetic on a value of bytes gives.
    pub fn not_numeric() -> (e: Error)
        ensures
            e@ == ErrorView::Database(not_numeric_message()),
    {
        Error::Database(String::from_str("type of stored `Value` is not `Numeric`"))
    }

    /// The error that arithmetic with floating-point numbers gives.
    pub fn float_arithmetic() -> (e: Error)
        ensures
            e@ == ErrorView::Other(float_arithmetic_message()),
    {
        Error::Other(String::from_str("floating-point arithmetic is left to the caller"))
    }
}

impl ErrorView {
    /// The number of the kind of the error.
    pub open spec fn kind(self) -> u32 {
        match self {
            ErrorView::InvalidName(_) => 0,
            ErrorView::DocumentIdTooLong => 1,
            ErrorView::SchemaNotRegistered(_) => 2,
            ErrorView::CollectionNotFound => 3,
            ErrorView::ViewNotFound => 4,
            ErrorView::DatabaseNotFound(_) => 5,
            ErrorView::DatabaseNameAlreadyTaken(_) => 6,
            ErrorView::InvalidDatabaseName(_) => 7,
            ErrorView::DocumentNotFound(_, _) => 8,
            ErrorView::DocumentConflict(_, _) => 9,
            ErrorView::UniqueKeyViolation(_, _) => 10,
            ErrorView::Disconnected => 11,
            ErrorView::UnexpectedResponse(_) => 12,
            ErrorView::ProtocolVersionMismatch => 13,
            ErrorView::ApiNotRegistered(_) => 14,
            ErrorView::InvalidCredentials => 15,
            ErrorView::PermissionDenied(_, _) => 16,
            ErrorView::SessionExpired => 17,
            ErrorView::UserNotFound => 18,
            ErrorView::Database(_) => 19,
            ErrorView::Other(_) => 20,
            ErrorView::RoleNotFound => 21,
            ErrorView::PermissionGroupNotFound => 22,
            ErrorView::SubscriberNotFound => 23,
        }
    }

    /// The text that the error carries, or the empty text.
    pub open spec fn text(self) -> Seq<char> {
        match self {
            ErrorView::InvalidName(a) => a,
            ErrorView::DocumentIdTooLong => Seq::<char>::empty(),
            ErrorView::SchemaNotRegistered(a) => a,
            ErrorView::CollectionNotFound => Seq::<char>::empty(),
            ErrorView::ViewNotFound => Seq::<char>::empty(),
            ErrorView::DatabaseNotFound(a) => a,
            ErrorView::DatabaseNameAlreadyTaken(a) => a,
            ErrorView::InvalidDatabaseName(a) => a,
            ErrorView::DocumentNotFound(a, _) => a,
            ErrorView::DocumentConflict(a, _) => a,
            ErrorView::UniqueKeyViolation(a, _) => a,
            ErrorView::Disconnected => Seq::<char>::empty(),
            ErrorView::UnexpectedResponse(a) => a,
            ErrorView::ProtocolVersionMismatch => Seq::<char>::empty(),
            ErrorView::ApiNotRegistered(a) => a,
            ErrorView::InvalidCredentials => Seq::<char>::empty(),
            ErrorView::PermissionDenied(a, _) => a,
            ErrorView::SessionExpired => Seq::<char>::empty(),
            ErrorView::UserNotFound => Seq::<char>::empty(),
            ErrorView::Database(a) => a,
            ErrorView::Other(a) => a,
            ErrorView::RoleNotFound => Seq::<char>::empty(),
            ErrorView::PermissionGroupNotFound => Seq::<char>::empty(),
            ErrorView::SubscriberNotFound => Seq::<char>::empty(),
        }
    }

    /// The bytes that the error carries besides its text, or none. A second
    /// text travels as its UTF-8 encoding.
    pub open spec fn data(self) -> Seq<u8> {
        match self {
            ErrorView::InvalidName(_) => Seq::<u8>::empty(),
            ErrorView::DocumentIdTooLong => Seq::<u8>::empty(),
            ErrorView::SchemaNotRegistered(_) => Seq::<u8>::empty(),
            ErrorView::CollectionNotFound => Seq::<u8>::empty(),
            ErrorView::ViewNotFound => Seq::<u8>::empty(),
            ErrorView::DatabaseNotFound(_) => Seq::<u8>::empty(),
            ErrorView::DatabaseNameAlreadyTaken(_) => Seq::<u8>::empty(),
            ErrorView::InvalidDatabaseName(_) => Seq::<u8>::empty(),
            ErrorView::DocumentNotFound(_, b) => b,
            ErrorView::DocumentConflict(_, b) => b,
            ErrorView::UniqueKeyViolation(_, b) => b,
            ErrorView::Disconnected => Seq::<u8>::empty(),
            ErrorView::UnexpectedResponse(_) => Seq::<u8>::empty(),
            ErrorView::ProtocolVersionMismatch => Seq::<u8>::empty(),
            ErrorView::ApiNotRegistered(_) => Seq::<u8>::empty(),
            ErrorView::InvalidCredentials => Seq::<u8>::empty(),
            ErrorView::PermissionDenied(_, b) => encode_utf8(b),
            ErrorView::SessionExpired => Seq::<u8>::empty(),
            ErrorView::UserNotFound => Seq::<u8>::empty(),
            ErrorView::Database(_) => Seq::<u8>::empty(),
            ErrorView::Other(_) => Seq::<u8>::empty(),
            ErrorView::RoleNotFound => Seq::<u8>::empty(),
            ErrorView::PermissionGroupNotFound => Seq::<u8>::empty(),
            ErrorView::SubscriberNotFound => Seq::<u8>::empty(),
        }
    }

    /// Whether the error can be encoded: its text and its bytes have
    /// lengths that fit the 64 bits of a length field.
    pub open spec fn encodable(self) -> bool {
        encode_utf8(self.text()).len() <= u64::MAX && self.data().len() <= u64::MAX
    }
}

/// The error of the kind `kind` that carries `text` and `data`, if there is
/// one: a kind carries nothing that it has no place for.
pub open spec fn build_error(kind: u32, text: Seq<char>, data: Seq<u8>) -> Option<ErrorView> {
    if kind == 0 {
        if data.len() == 0 { Some(ErrorView::InvalidName(text)) } else { None }
    } else if kind == 1 {
        if text.len() == 0 && data.len() == 0 { Some(ErrorView::DocumentIdTooLong) } else { None }
    } else if kind == 2 {
        if data.len() == 0 { Some(ErrorView::SchemaNotRegistered(text)) } else { None }
    } else if kind == 3 {
        if text.len() == 0 && data.len() == 0 { Some(ErrorView::CollectionNotFound) } else { None }
    } else if kind == 4 {
        if text.len() == 0 && data.len() == 0 { Some(ErrorView::ViewNotFound) } else { None }
    } else if kind == 5 {
        if data.len() == 0 { Some(ErrorView::DatabaseNotFound(text)) } else { None }
    } else if kind == 6 {
        if data.len() == 0 { Some(ErrorView::DatabaseNameAlreadyTaken(text)) } else { None }
    } else if kind == 7 {
        if data.len() == 0 { Some(ErrorView::InvalidDatabaseName(text)) } else { None }
    } else if kind == 8 {
        Some(ErrorView::DocumentNotFound(text, data))
    } else if kind == 9 {
        Some(ErrorView::DocumentConflict(text, data))
    } else if kind == 10 {
        Some(ErrorView::UniqueKeyViolation(text, data))
    } else if kind == 11 {
        if text.len() == 0 && data.len() == 0 { Some(ErrorView::Disconnected) } else { None }
    } else if kind == 12 {
        if data.len() == 0 { Some(ErrorView::UnexpectedResponse(text)) } else { None }
    } else if kind == 13 {
        if text.len() == 0 && data.len() == 0 { Some(ErrorView::ProtocolVersionMismatch) } else { None }
    } else if kind == 14 {
        if data.len() == 0 { Some(ErrorView::ApiNotRegistered(text)) } else { None }
    } else if kind == 15 {
        if text.len() == 0 && data.len() == 0 { Some(ErrorView::InvalidCredentials) } else { None }
    } else if kind == 16 {
        if valid_utf8(data) { Some(ErrorView::PermissionDenied(text, decode_utf8(data))) } else { None }
    } else if kind == 17 {
        if text.len() == 0 && data.len() == 0 { Some(ErrorView::SessionExpired) } else { None }
    } else if kind == 18 {
        if text.len() == 0 && data.len() == 0 { Some(ErrorView::UserNotFound) } else { None }
    } else if kind == 19 {
        if data.len() == 0 { Some(ErrorView::Database(text)) } else { None }
    } else if kind == 20 {
        if data.len() == 0 { Some(ErrorView::Other(text)) } else { None }
    } else if kind == 21 {
        if text.len() == 0 && data.len() == 0 { Some(ErrorView::RoleNotFound) } else { None }
    } else if kind == 22 {
        if text.len() == 0 && data.len() == 0 { Some(ErrorView::PermissionGroupNotFound) } else { None }
    } else if kind == 23 {
        if text.len() == 0 && data.len() == 0 { Some(ErrorView::SubscriberNotFound) } else { None }
    } else {
        None
    }
}

/// The bytes of an error: the number of its kind, its text, and its bytes.
pub open spec fn encode_error(e: ErrorView) -> Seq<u8> {
    encode_u32(e.kind()) + encode_text(e.text()) + encode_bytes(e.data())
}

/// Reads an error from the front of `s`.
pub open spec fn parse_error(s: Seq<u8>) -> Option<(ErrorView, Seq<u8>)> {
    match parse_u32(s) {
        Some((kind, rest)) => match parse_text(rest) {
            Some((text, rest)) => match parse_bytes(rest) {
                Some((data, rest)) => match build_error(kind, text, data) {
                    Some(e) => Some((e, rest)),
                    None => None,
                },
                None => None,
            },
            None => None,
        },
        None => None,
    }
}

/// An error is the one that its kind, its text and its bytes build.
pub proof fn lemma_build_error(e: ErrorView)
    ensures
        build_error(e.kind(), e.text(), e.data()) == Some(e),
{
    match e {
        ErrorView::PermissionDenied(_, b) => {
            encode_utf8_valid_utf8(b);
            encode_utf8_decode_utf8(b);
        },
        _ => {},
    }
}

/// Reading an error written in front of `rest` gives it back.
pub proof fn lemma_parse_error(e: ErrorView, rest: Seq<u8>)
    requires
        e.encodable(),
    ensures
        parse_error(encode_error(e) + rest) == Some((e, rest)),
{
    let tail2 = encode_bytes(e.data()) + rest;
    let tail1 = encode_text(e.text()) + tail2;
    assert(encode_error(e) + rest =~= encode_u32(e.kind()) + tail1);
    lemma_parse_u32(e.kind(), tail1);
    lemma_parse_text(e.text(), tail2);
    lemma_parse_bytes(e.data(), rest);
    lemma_build_error(e);
}

impl Error {
    /// The number of the kind of the error.
    pub fn kind(&self) -> (kind: u32)
        ensures
            kind == self@.kind(),
    {
        match self {
            Error::InvalidName(_) => 0,
            Error::DocumentIdTooLong => 1,
            Error::SchemaNotRegistered(_) => 2,
            Error::CollectionNotFound => 3,
            Error::ViewNotFound => 4,
            Error::DatabaseNotFound(_) => 5,
            Error::DatabaseNameAlreadyTaken(_) => 6,
            Error::InvalidDatabaseName(_) => 7,
            Error::DocumentNotFound(_, _) => 8,
            Error::DocumentConflict(_, _) => 9,
            Error::UniqueKeyViolation(_, _) => 10,
            Error::Disconnected => 11,
            Error::UnexpectedResponse(_) => 12,
            Error::ProtocolVersionMismatch => 13,
            Error::ApiNotRegistered(_) => 14,
            Error::InvalidCredentials => 15,
            Error::PermissionDenied(_, _) => 16,
            Error::SessionExpired => 17,
            Error::UserNotFound => 18,
            Error::Database(_) => 19,
            Error::Other(_) => 20,
            Error::RoleNotFound => 21,
            Error::PermissionGroupNotFound => 22,
            Error::SubscriberNotFound => 23,
        }
    }

    /// Appends the error.
    pub fn write(&self, out: &mut Vec<u8>)
        ensures
            final(out)@ == old(out)@ + encode_error(self@),
            self@.encodable(),
    {
        let empty: Vec<u8> = Vec::new();
        proof {
            reveal_strlit("");
            assert(""@ =~= Seq::<char>::empty());
            assert(empty@ =~= Seq::<u8>::empty());
        }
        write_u32(out, self.kind());
        match self {
            Error::InvalidName(a) => {
                write_text(out, a.as_str());
                write_bytes(out, empty.as_slice());
            },
            Error::DocumentIdTooLong => {
                write_text(out, "");
                write_bytes(out, empty.as_slice());
            },
            Error::SchemaNotRegistered(a) => {
                write_text(out, a.as_str());
                write_bytes(out, empty.as_slice());
            },
            Error::CollectionNotFound => {
                write_text(out, "");
                write_bytes(out, empty.as_slice());
            },
            Error::ViewNotFound => {
                write_text(out, "");
                write_bytes(out, empty.as_slice());
            },
            Error::DatabaseNotFound(a) => {
                write_text(out, a.as_str());
                write_bytes(out, empty.as_slice());
            },
            Error::DatabaseNameAlreadyTaken(a) => {
                write_text(out, a.as_str());
                write_bytes(out, empty.as_slice());
            },
            Error::InvalidDatabaseName(a) => {
                write_text(out, a.as_str());
                write_bytes(out, empty.as_slice());
            },
            Error::DocumentNotFound(a, b) => {
                write_text(out, a.as_str());
                write_bytes(out, b.as_slice());
            },
            Error::DocumentConflict(a, b) => {
                write_text(out, a.as_str());
                write_bytes(out, b.as_slice());
            },
            Error::UniqueKeyViolation(a, b) => {
                write_text(out, a.as_str());
                write_bytes(out, b.as_slice());
            },
            Error::Disconnected => {
                write_text(out, "");
                write_bytes(out, empty.as_slice());
            },
            Error::UnexpectedResponse(a) => {
                write_text(out, a.as_str());
                write_bytes(out, empty.as_slice());
            },
            Error::ProtocolVersionMismatch => {
                write_text(out, "");
                write_bytes(out, empty.as_slice());
            },
            Error::ApiNotRegistered(a) => {
                write_text(out, a.as_str());
                write_bytes(out, empty.as_slice());
            },
            Error::InvalidCredentials => {
                write_text(out, "");
                write_bytes(out, empty.as_slice());
            },
            Error::PermissionDenied(a, b) => {
                write_text(out, a.as_str());
                write_bytes(out, b.as_str().as_bytes());
            },
            Error::SessionExpired => {
                write_text(out, "");
                write_bytes(out, empty.as_slice());
            },
            Error::UserNotFound => {
                write_text(out, "");
                write_bytes(out, empty.as_slice());
            },
            Error::Database(a) => {
                write_text(out, a.as_str());
                write_bytes(out, empty.as_slice());
            },
            Error::Other(a) => {
                write_text(out, a.as_str());
                write_bytes(out, empty.as_slice());
            },
            Error::RoleNotFound => {
                write_text(out, "");
                write_bytes(out, empty.as_slice());
            },
            Error::PermissionGroupNotFound => {
                write_text(out, "");
                write_bytes(out, empty.as_slice());
            },
            Error::SubscriberNotFound => {
                write_text(out, "");
                write_bytes(out, empty.as_slice());
            },
        }
        assert(final(out)@ =~= old(out)@ + encode_error(self@));
    }

    /// Reads an error at `pos`.
    pub fn read(input: &[u8], pos: usize) -> (r: Option<(Error, usize)>)
        requires
            pos <= input@.len(),
        ensures
            match r {
                Some((e, next)) => {
                    &&& pos <= next <= input@.len()
                    &&& parse_error(input@.skip(pos as int)) == Some(
                        (e@, input@.skip(next as int)),
                    )
                },
                None => parse_error(input@.skip(pos as int)) is None,
            },
    {
        let (kind, next) = match read_u32(input, pos) {
            Some(r) => r,
            None => { return None; },
        };
        let (text, next) = match read_text(input, next) {
            Some(r) => r,
            None => { return None; },
        };
        let (data, end) = match read_bytes(input, next) {
            Some(r) => r,
            None => { return None; },
        };
        match assemble_error(kind, text, data) {
            Some(e) => Some((e, end)),
            None => None,
        }
    }
}

/// The error of the kind `kind` that carries `text` and `data`; see
/// [`build_error`].
pub fn assemble_error(kind: u32, text: String, data: Vec<u8>) -> (r: Option<Error>)
    ensures
        match r {
            Some(e) => build_error(kind, text@, data@) == Some(e@),
            None => build_error(kind, text@, data@) is None,
        },
{
    let plain = text.as_str().unicode_len() == 0;
    let bare = data.len() == 0;
    if kind == 0 {
        if bare { Some(Error::InvalidName(text)) } else { None }
    } else if kind == 1 {
        if plain && bare { Some(Error::DocumentIdTooLong) } else { None }
    } else if kind == 2 {
        if bare { Some(Error::SchemaNotRegistered(text)) } else { None }
    } else if kind == 3 {
        if plain && bare { Some(Error::CollectionNotFound) } else { None }
    } else if kind == 4 {
        if plain && bare { Some(Error::ViewNotFound) } else { None }
    } else if kind == 5 {
        if bare { Some(Error::DatabaseNotFound(text)) } else { None }
    } else if kind == 6 {
        if bare { Some(Error::DatabaseNameAlreadyTaken(text)) } else { None }
    } else if kind == 7 {
        if bare { Some(Error::InvalidDatabaseName(text)) } else { None }
    } else if kind == 8 {
        Some(Error::DocumentNotFound(text, data))
    } else if kind == 9 {
        Some(Error::DocumentConflict(text, data))
    } else if kind == 10 {
        Some(Error::UniqueKeyViolation(text, data))
    } else if kind == 11 {
        if plain && bare { Some(Error::Disconnected) } else { None }
    } else if kind == 12 {
        if bare { Some(Error::UnexpectedResponse(text)) } else { None }
    } else if kind == 13 {
        if plain && bare { Some(Error::ProtocolVersionMismatch) } else { None }
    } else if kind == 14 {
        if bare { Some(Error::ApiNotRegistered(text)) } else { None }
    } else if kind == 15 {
        if plain && bare { Some(Error::InvalidCredentials) } else { None }
    } else if kind == 16 {
        match crate::text::string_from_utf8(data) {
            Some(second) => Some(Error::PermissionDenied(text, second)),
            None => None,
        }
    } else if kind == 17 {
        if plain && bare { Some(Error::SessionExpired) } else { None }
    } else if kind == 18 {
        if plain && bare { Some(Error::UserNotFound) } else { None }
    } else if kind == 19 {
        if bare { Some(Error::Database(text)) } else { None }
    } else if kind == 20 {
        if bare { Some(Error::Other(text)) } else { None }
    } else if kind == 21 {
        if plain && bare { Some(Error::RoleNotFound) } else { None }
    } else if kind == 22 {
        if plain && bare { Some(Error::PermissionGroupNotFound) } else { None }
    } else if kind == 23 {
        if plain && bare { Some(Error::SubscriberNotFound) } else { None }
    } else {
        None
    }
}

} // verus!
