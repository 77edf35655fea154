//! The requests of the protocol, each with the name that it travels under,
//! and the envelope and frame that carry them.

use crate::codec::{
    encode_bytes, encode_option_u32, encode_option_u64, encode_text, encode_u32,
    lemma_parse_bytes, lemma_parse_option_u32, lemma_parse_option_u64, lemma_parse_text,
    lemma_parse_u32, parse_bytes, parse_option_u32, parse_option_u64, parse_text, parse_u32,
    read_bytes, read_option_u32, read_option_u64, read_text, read_u32, write_bytes,
    write_option_u32, write_option_u64, write_raw, write_text, write_u32,
};
use crate::connection::{
    AccessPolicy, Authentication, Database, Identity, QueryKey, Range, SensitiveString, Session,
    SessionId, Sort,
};
use crate::document::{DocumentId, OwnedDocument};
use crate::error::{encode_error, lemma_parse_error, parse_error, ErrorView};
use crate::keyvalue::{KeyOperation, Output};
use crate::schema::view::{MappedSerializedDocuments, MappedSerializedValue, Serialized};
use crate::schema::{valid_name, CollectionName, Name, NamedReference, SchemaName, ViewName};
use crate::text::str_equal;
use crate::transaction::{Executed, OperationResult, Transaction};
use vstd::prelude::*;
use vstd::string::StringExecFns;
use vstd::utf8::encode_utf8;

verus! {

/// The version of the protocol that this library speaks.
pub const CURRENT_PROTOCOL_VERSION: &'static str = "bonsai/pre/0";

/// A request of the protocol.
pub trait Api {
    /// What the request is answered with.
    type Response;

    /// The text of the name that the request travels under.
    spec fn spec_name() -> Seq<char>;

    /// The name that the request travels under.
    fn name() -> (n: Name)
        ensures
            n@ == Self::spec_name(),
            valid_name(n@),
    ;
}

/// Creates a database.
#[derive(Clone, Debug, PartialEq, Eq)]
pub struct CreateDatabase {
    /// The database to create.
    pub database: Database,
    /// Does nothing, and reports no error, if the database exists already.
    pub only_if_needed: bool,
}

impl Api for CreateDatabase {
    type Response = ();

    open spec fn spec_name() -> Seq<char> {
        "CreateDatabase"@
    }

    fn name() -> (n: Name) {
        proof {
            reveal_strlit("CreateDatabase");
        }
        Name::from("CreateDatabase")
    }
}

/// Deletes the database named `name`.
#[derive(Clone, Debug, PartialEq, Eq)]
pub struct DeleteDatabase {
    /// The name of the database to delete.
    pub name: String,
}

impl Api for DeleteDatabase {
    type Response = ();

    open spec fn spec_name() -> Seq<char> {
        "DeleteDatabase"@
    }

    fn name() -> (n: Name) {
        proof {
            reveal_strlit("DeleteDatabase");
        }
        Name::from("DeleteDatabase")
    }
}

/// Lists all databases.
#[derive(Clone, Debug, PartialEq, Eq)]
pub struct ListDatabases;

impl Api for ListDatabases {
    type Response = Vec<Database>;

    open spec fn spec_name() -> Seq<char> {
        "ListDatabases"@
    }

    fn name() -> (n: Name) {
        proof {
            reveal_strlit("ListDatabases");
        }
        Name::from("ListDatabases")
    }
}

/// Lists the schemas that databases can be created with.
#[derive(Clone, Debug, PartialEq, Eq)]
pub struct ListAvailableSchemas;

impl Api for ListAvailableSchemas {
    type Response = Vec<SchemaName>;

    open spec fn spec_name() -> Seq<char> {
        "ListAvailableSchemas"@
    }

    fn name() -> (n: Name) {
        proof {
            reveal_strlit("ListAvailableSchemas");
        }
        Name::from("ListAvailableSchemas")
    }
}

/// Creates a user.
#[derive(Clone, Debug, PartialEq, Eq)]
pub struct CreateUser {
    /// The unique name of the user to create.
    pub username: String,
}

impl Api for CreateUser {
    type Response = u64;

    open spec fn spec_name() -> Seq<char> {
        "CreateUser"@
    }

    fn name() -> (n: Name) {
        proof {
            reveal_strlit("CreateUser");
        }
        Name::from("CreateUser")
    }
}

/// Deletes a user.
#[derive(Clone, Debug, PartialEq, Eq)]
pub struct DeleteUser {
    /// The name or the id of the user to delete.
    pub user: NamedReference,
}

impl Api for DeleteUser {
    type Response = ();

    open spec fn spec_name() -> Seq<char> {
        "DeleteUser"@
    }

    fn name() -> (n: Name) {
        proof {
            reveal_strlit("DeleteUser");
        }
        Name::from("DeleteUser")
    }
}

/// Sets the password of a user.
#[derive(Clone, Debug, PartialEq, Eq)]
pub struct SetUserPassword {
    /// The name or the id of the user.
    pub user: NamedReference,
    /// The new password of the user.
    pub password: SensitiveString,
}

impl Api for SetUserPassword {
    type Response = ();

    open spec fn spec_name() -> Seq<char> {
        "SetUserPassword"@
    }

    fn name() -> (n: Name) {
        proof {
            reveal_strlit("SetUserPassword");
        }
        Name::from("SetUserPassword")
    }
}

/// Authenticates as a user.
#[derive(Clone, Debug, PartialEq, Eq)]
pub struct Authenticate {
    /// The name or the id of the user.
    pub user: NamedReference,
    /// The proof of who one is.
    pub authentication: Authentication,
}

impl Api for Authenticate {
    type Response = Session;

    open spec fn spec_name() -> Seq<char> {
        "Authenticate"@
    }

    fn name() -> (n: Name) {
        proof {
            reveal_strlit("Authenticate");
        }
        Name::from("Authenticate")
    }
}

/// Assumes an identity.
#[derive(Clone, Debug, PartialEq, Eq)]
pub struct AssumeIdentity(pub Identity);

impl Api for AssumeIdentity {
    type Response = Session;

    open spec fn spec_name() -> Seq<char> {
        "AssumeIdentity"@
    }

    fn name() -> (n: Name) {
        proof {
            reveal_strlit("AssumeIdentity");
        }
        Name::from("AssumeIdentity")
    }
}

/// Changes whether a user belongs to a permission group.
#[derive(Clone, Debug, PartialEq, Eq)]
pub struct AlterUserPermissionGroupMembership {
    /// The name or the id of the user.
    pub user: NamedReference,
    /// The name or the id of the group.
    pub group: NamedReference,
    /// Whether the user is to belong to the group.
    pub should_be_member: bool,
}

impl Api for AlterUserPermissionGroupMembership {
    type Response = ();

    open spec fn spec_name() -> Seq<char> {
        "AlterUserPermissionGroupMembership"@
    }

    fn name() -> (n: Name) {
        proof {
            reveal_strlit("AlterUserPermissionGroupMembership");
        }
        Name::from("AlterUserPermissionGroupMembership")
    }
}

/// Changes whether a user has a role.
#[derive(Clone, Debug, PartialEq, Eq)]
pub struct AlterUserRoleMembership {
    /// The name or the id of the user.
    pub user: NamedReference,
    /// The name or the id of the role.
    pub role: NamedReference,
    /// Whether the user is to have the role.
    pub should_be_member: bool,
}

impl Api for AlterUserRoleMembership {
    type Response = ();

    open spec fn spec_name() -> Seq<char> {
        "AlterUserRoleMembership"@
    }

    fn name() -> (n: Name) {
        proof {
            reveal_strlit("AlterUserRoleMembership");
        }
        Name::from("AlterUserRoleMembership")
    }
}

/// Retrieves one document.
#[derive(Clone, Debug, PartialEq, Eq)]
pub struct Get {
    /// The name of the database.
    pub database: String,
    /// The collection of the document.
    pub collection: CollectionName,
    /// The id of the document.
    pub id: DocumentId,
}

impl Api for Get {
    type Response = Option<OwnedDocument>;

    open spec fn spec_name() -> Seq<char> {
        "Get"@
    }

    fn name() -> (n: Name) {
        proof {
            reveal_strlit("Get");
        }
        Name::from("Get")
    }
}

/// Retrieves several documents.
#[derive(Clone, Debug, PartialEq, Eq)]
pub struct GetMultiple {
    /// The name of the database.
    pub database: String,
    /// The collection of the documents.
    pub collection: CollectionName,
    /// The ids of the documents.
    pub ids: Vec<DocumentId>,
}

impl Api for GetMultiple {
    type Response = Vec<OwnedDocument>;

    open spec fn spec_name() -> Seq<char> {
        "GetMultiple"@
    }

    fn name() -> (n: Name) {
        proof {
            reveal_strlit("GetMultiple");
        }
        Name::from("GetMultiple")
    }
}

/// Retrieves the documents with an id in a range.
#[derive(Clone, Debug, PartialEq, Eq)]
pub struct List {
    /// The name of the database.
    pub database: String,
    /// The collection of the documents.
    pub collection: CollectionName,
    /// The range of ids to list.
    pub ids: Range<DocumentId>,
    /// The order of the documents.
    pub order: Sort,
    /// The greatest number of documents to return.
    pub limit: Option<u32>,
}

impl Api for List {
    type Response = Vec<OwnedDocument>;

    open spec fn spec_name() -> Seq<char> {
        "List"@
    }

    fn name() -> (n: Name) {
        proof {
            reveal_strlit("List");
        }
        Name::from("List")
    }
}

/// Counts the documents with an id in a range.
#[derive(Clone, Debug, PartialEq, Eq)]
pub struct Count {
    /// The name of the database.
    pub database: String,
    /// The collection of the documents.
    pub collection: CollectionName,
    /// The range of ids to count.
    pub ids: Range<DocumentId>,
}

impl Api for Count {
    type Response = u64;

    open spec fn spec_name() -> Seq<char> {
        "Count"@
    }

    fn name() -> (n: Name) {
        proof {
            reveal_strlit("Count");
        }
        Name::from("Count")
    }
}

/// Queries a view.
#[derive(Clone, Debug, PartialEq, Eq)]
pub struct Query {
    /// The name of the database.
    pub database: String,
    /// The name of the view.
    pub view: ViewName,
    /// The filter on the keys of the view.
    pub key: Option<QueryKey<Vec<u8>>>,
    /// The order of the entries.
    pub order: Sort,
    /// The greatest number of entries to return.
    pub limit: Option<u32>,
    /// What to do about changes that the view has not caught up with.
    pub access_policy: AccessPolicy,
}

impl Api for Query {
    type Response = Vec<Serialized>;

    open spec fn spec_name() -> Seq<char> {
        "Query"@
    }

    fn name() -> (n: Name) {
        proof {
            reveal_strlit("Query");
        }
        Name::from("Query")
    }
}

/// Queries a view, and returns the documents of the entries with them.
#[derive(Clone, Debug, PartialEq, Eq)]
pub struct QueryWithDocs(pub Query);

impl Api for QueryWithDocs {
    type Response = MappedSerializedDocuments;

    open spec fn spec_name() -> Seq<char> {
        "QueryWithDocs"@
    }

    fn name() -> (n: Name) {
        proof {
            reveal_strlit("QueryWithDocs");
        }
        Name::from("QueryWithDocs")
    }
}

/// Reduces the values of a view to one.
#[derive(Clone, Debug, PartialEq, Eq)]
pub struct Reduce {
    /// The name of the database.
    pub database: String,
    /// The name of the view.
    pub view: ViewName,
    /// The filter on the keys of the view.
    pub key: Option<QueryKey<Vec<u8>>>,
    /// What to do about changes that the view has not caught up with.
    pub access_policy: AccessPolicy,
}

impl Api for Reduce {
    type Response = Vec<u8>;

    open spec fn spec_name() -> Seq<char> {
        "Reduce"@
    }

    fn name() -> (n: Name) {
        proof {
            reveal_strlit("Reduce");
        }
        Name::from("Reduce")
    }
}

/// Reduces the values of a view to one for each key.
#[derive(Clone, Debug, PartialEq, Eq)]
pub struct ReduceGrouped(pub Reduce);

impl Api for ReduceGrouped {
    type Response = Vec<MappedSerializedValue>;

    open spec fn spec_name() -> Seq<char> {
        "ReduceGrouped"@
    }

    fn name() -> (n: Name) {
        proof {
            reveal_strlit("ReduceGrouped");
        }
        Name::from("ReduceGrouped")
    }
}

/// Deletes the documents of the entries that a query of a view matches.
#[derive(Clone, Debug, PartialEq, Eq)]
pub struct DeleteDocs {
    /// The name of the database.
    pub database: String,
    /// The name of the view.
    pub view: ViewName,
    /// The filter on the keys of the view.
    pub key: Option<QueryKey<Vec<u8>>>,
    /// What to do about changes that the view has not caught up with.
    pub access_policy: AccessPolicy,
}

impl Api for DeleteDocs {
    type Response = u64;

    open spec fn spec_name() -> Seq<char> {
        "DeleteDocs"@
    }

    fn name() -> (n: Name) {
        proof {
            reveal_strlit("DeleteDocs");
        }
        Name::from("DeleteDocs")
    }
}

/// Applies a transaction.
#[derive(Clone, Debug, PartialEq, Eq)]
pub struct ApplyTransaction {
    /// The name of the database.
    pub database: String,
    /// The transaction to apply.
    pub transaction: Transaction,
}

impl Api for ApplyTransaction {
    type Response = Vec<OperationResult>;

    open spec fn spec_name() -> Seq<char> {
        "ApplyTransaction"@
    }

    fn name() -> (n: Name) {
        proof {
            reveal_strlit("ApplyTransaction");
        }
        Name::from("ApplyTransaction")
    }
}

/// Lists the transactions that were applied.
#[derive(Clone, Debug, PartialEq, Eq)]
pub struct ListExecutedTransactions {
    /// The name of the database.
    pub database: String,
    /// The id of the first transaction to list.
    pub starting_id: Option<u64>,
    /// The greatest number of transactions to list.
    pub result_limit: Option<u32>,
}

impl Api for ListExecutedTransactions {
    type Response = Vec<Executed>;

    open spec fn spec_name() -> Seq<char> {
        "ListExecutedTransactions"@
    }

    fn name() -> (n: Name) {
        proof {
            reveal_strlit("ListExecutedTransactions");
        }
        Name::from("ListExecutedTransactions")
    }
}

/// Asks for the id of the last transaction that was applied.
#[derive(Clone, Debug, PartialEq, Eq)]
pub struct LastTransactionId {
    /// The name of the database.
    pub database: String,
}

impl Api for LastTransactionId {
    type Response = Option<u64>;

    open spec fn spec_name() -> Seq<char> {
        "LastTransactionId"@
    }

    fn name() -> (n: Name) {
        proof {
            reveal_strlit("LastTransactionId");
        }
        Name::from("LastTransactionId")
    }
}

/// Creates a subscriber of the publish/subscribe broker.
#[derive(Clone, Debug, PartialEq, Eq)]
pub struct CreateSubscriber {
    /// The name of the database.
    pub database: String,
}

impl Api for CreateSubscriber {
    type Response = u64;

    open spec fn spec_name() -> Seq<char> {
        "CreateSubscriber"@
    }

    fn name() -> (n: Name) {
        proof {
            reveal_strlit("CreateSubscriber");
        }
        Name::from("CreateSubscriber")
    }
}

/// Publishes `payload` to the subscribers of `topic`.
#[derive(Clone, Debug, PartialEq, Eq)]
pub struct Publish {
    /// The name of the database.
    pub database: String,
    /// The topic to publish to.
    pub topic: String,
    /// The payload to publish.
    pub payload: Vec<u8>,
}

impl Api for Publish {
    type Response = ();

    open spec fn spec_name() -> Seq<char> {
        "Publish"@
    }

    fn name() -> (n: Name) {
        proof {
            reveal_strlit("Publish");
        }
        Name::from("Publish")
    }
}

/// Publishes `payload` to the subscribers of each of `topics`.
#[derive(Clone, Debug, PartialEq, Eq)]
pub struct PublishToAll {
    /// The name of the database.
    pub database: String,
    /// The topics to publish to.
    pub topics: Vec<String>,
    /// The payload to publish.
    pub payload: Vec<u8>,
}

impl Api for PublishToAll {
    type Response = ();

    open spec fn spec_name() -> Seq<char> {
        "PublishToAll"@
    }

    fn name() -> (n: Name) {
        proof {
            reveal_strlit("PublishToAll");
        }
        Name::from("PublishToAll")
    }
}

/// Subscribes `subscriber_id` to the messages of `topic`.
#[derive(Clone, Debug, PartialEq, Eq)]
pub struct SubscribeTo {
    /// The name of the database.
    pub database: String,
    /// The id of the subscriber.
    pub subscriber_id: u64,
    /// The topic to subscribe to.
    pub topic: String,
}

impl Api for SubscribeTo {
    type Response = ();

    open spec fn spec_name() -> Seq<char> {
        "SubscribeTo"@
    }

    fn name() -> (n: Name) {
        proof {
            reveal_strlit("SubscribeTo");
        }
        Name::from("SubscribeTo")
    }
}

/// A message of the publish/subscribe broker, pushed to a subscriber.
#[derive(Clone, Debug, PartialEq, Eq)]
pub struct MessageReceived {
    /// The id of the subscriber that receives the message.
    pub subscriber_id: u64,
    /// The topic that the message was published to.
    pub topic: String,
    /// The payload of the message.
    pub payload: Vec<u8>,
}

impl Api for MessageReceived {
    type Response = MessageReceived;

    open spec fn spec_name() -> Seq<char> {
        "MessageReceived"@
    }

    fn name() -> (n: Name) {
        proof {
            reveal_strlit("MessageReceived");
        }
        Name::from("MessageReceived")
    }
}

/// Ends the subscription of `subscriber_id` to `topic`.
#[derive(Clone, Debug, PartialEq, Eq)]
pub struct UnsubscribeFrom {
    /// The name of the database.
    pub database: String,
    /// The id of the subscriber.
    pub subscriber_id: u64,
    /// The topic to unsubscribe from.
    pub topic: String,
}

impl Api for UnsubscribeFrom {
    type Response = ();

    open spec fn spec_name() -> Seq<char> {
        "UnsubscribeFrom"@
    }

    fn name() -> (n: Name) {
        proof {
            reveal_strlit("UnsubscribeFrom");
        }
        Name::from("UnsubscribeFrom")
    }
}

/// Removes a subscriber.
#[derive(Clone, Debug, PartialEq, Eq)]
pub struct UnregisterSubscriber {
    /// The name of the database.
    pub database: String,
    /// The id of the subscriber.
    pub subscriber_id: u64,
}

impl Api for UnregisterSubscriber {
    type Response = ();

    open spec fn spec_name() -> Seq<char> {
        "UnregisterSubscriber"@
    }

    fn name() -> (n: Name) {
        proof {
            reveal_strlit("UnregisterSubscriber");
        }
        Name::from("UnregisterSubscriber")
    }
}

/// Executes an operation of the key-value store.
#[derive(Clone, Debug, PartialEq, Eq)]
pub struct ExecuteKeyOperation {
    /// The name of the database.
    pub database: String,
    /// The operation to execute.
    pub op: KeyOperation,
}

impl Api for ExecuteKeyOperation {
    type Response = Output;

    open spec fn spec_name() -> Seq<char> {
        "ExecuteKeyOperation"@
    }

    fn name() -> (n: Name) {
        proof {
            reveal_strlit("ExecuteKeyOperation");
        }
        Name::from("ExecuteKeyOperation")
    }
}

/// Compacts a collection.
#[derive(Clone, Debug, PartialEq, Eq)]
pub struct CompactCollection {
    /// The name of the database.
    pub database: String,
    /// The name of the collection to compact.
    pub name: CollectionName,
}

impl Api for CompactCollection {
    type Response = ();

    open spec fn spec_name() -> Seq<char> {
        "CompactCollection"@
    }

    fn name() -> (n: Name) {
        proof {
            reveal_strlit("CompactCollection");
        }
        Name::from("CompactCollection")
    }
}

/// Compacts the key-value store.
#[derive(Clone, Debug, PartialEq, Eq)]
pub struct CompactKeyValueStore {
    /// The name of the database.
    pub database: String,
}

impl Api for CompactKeyValueStore {
    type Response = ();

    open spec fn spec_name() -> Seq<char> {
        "CompactKeyValueStore"@
    }

    fn name() -> (n: Name) {
        proof {
            reveal_strlit("CompactKeyValueStore");
        }
        Name::from("CompactKeyValueStore")
    }
}

/// Compacts the whole database.
#[derive(Clone, Debug, PartialEq, Eq)]
pub struct Compact {
    /// The name of the database.
    pub database: String,
}

impl Api for Compact {
    type Response = ();

    open spec fn spec_name() -> Seq<char> {
        "Compact"@
    }

    fn name() -> (n: Name) {
        proof {
            reveal_strlit("Compact");
        }
        Name::from("Compact")
    }
}

/// An error of the connection itself.
#[derive(Clone, Debug, PartialEq, Eq)]
pub enum Error {
    /// The peer answered with something that does not fit the request.
    UnexpectedResponse(String),
    /// The connection was interrupted.
    Disconnected,
}

impl Error {
    /// The error as one of the database.
    pub fn into_error(self) -> (e: crate::error::Error)
        ensures
            e@ == (match self {
                Error::UnexpectedResponse(s) => ErrorView::UnexpectedResponse(s@),
                Error::Disconnected => ErrorView::Disconnected,
            }),
    {
        match self {
            Error::UnexpectedResponse(s) => crate::error::Error::UnexpectedResponse(s),
            Error::Disconnected => crate::error::Error::Disconnected,
        }
    }

    /// What the error says.
    pub open spec fn spec_to_string(self) -> Seq<char> {
        match self {
            Error::UnexpectedResponse(s) => "unexpected response: "@ + s@,
            Error::Disconnected => "unexpected disconnection"@,
        }
    }

    /// What the error says.
    pub fn to_string(&self) -> (s: String)
        ensures
            s@ == self.spec_to_string(),
    {
        match self {
            Error::UnexpectedResponse(detail) => {
                let mut s = String::from_str("unexpected response: ");
                s.append(detail.as_str());
                s
            },
            Error::Disconnected => String::from_str("unexpected disconnection"),
        }
    }
}

/// A request or a response on its way: the session it belongs to, the id
/// that ties a response to its request, the name of the request, and its
/// serialized value or the error that it failed with.
#[derive(Debug, PartialEq, Eq)]
pub struct Payload {
    /// The session that the payload belongs to.
    pub session_id: Option<SessionId>,
    /// The id of the request. A response carries the id of its request; a
    /// payload without an id expects no response.
    pub id: Option<u32>,
    /// The name of the request.
    pub name: Name,
    /// The serialized request or response, or the error.
    pub value: Result<Vec<u8>, crate::error::Error>,
}

/// The mathematical content of a [`Payload`].
pub struct PayloadView {
    /// The id of the session.
    pub session_id: Option<u64>,
    /// The id of the request.
    pub id: Option<u32>,
    /// The name of the request.
    pub name: Seq<char>,
    /// The serialized value, or the error.
    pub value: Result<Seq<u8>, ErrorView>,
}

impl View for Payload {
    type V = PayloadView;

    open spec fn view(&self) -> PayloadView {
        PayloadView {
            session_id: match self.session_id {
                Some(id) => Some(id.0),
                None => None,
            },
            id: self.id,
            name: self.name@,
            value: match self.value {
                Ok(bytes) => Ok(bytes@),
                Err(e) => Err(e@),
            },
        }
    }
}

/// The bytes of the value of a payload.
pub open spec fn encode_outcome(value: Result<Seq<u8>, ErrorView>) -> Seq<u8> {
    match value {
        Ok(bytes) => encode_u32(0) + encode_bytes(bytes),
        Err(e) => encode_u32(1) + encode_error(e),
    }
}

/// The bytes of a payload: its session, its id, its name and its value.
pub open spec fn encode_payload(p: PayloadView) -> Seq<u8> {
    encode_option_u64(p.session_id) + encode_option_u32(p.id) + encode_text(p.name)
        + encode_outcome(p.value)
}

/// Reads the value of a payload from the front of `s`.
pub open spec fn parse_outcome(s: Seq<u8>) -> Option<(Result<Seq<u8>, ErrorView>, Seq<u8>)> {
    match parse_u32(s) {
        Some((kind, rest)) => if kind == 0 {
            match parse_bytes(rest) {
                Some((bytes, rest)) => Some((Ok(bytes), rest)),
                None => None,
            }
        } else if kind == 1 {
            match parse_error(rest) {
                Some((e, rest)) => Some((Err(e), rest)),
                None => None,
            }
        } else {
            None
        },
        None => None,
    }
}

/// Reads a payload from the front of `s`.
pub open spec fn parse_payload(s: Seq<u8>) -> Option<(PayloadView, Seq<u8>)> {
    match parse_option_u64(s) {
        Some((session_id, rest)) => match parse_option_u32(rest) {
            Some((id, rest)) => match parse_text(rest) {
                Some((name, rest)) => match parse_outcome(rest) {
                    Some((value, rest)) => Some((PayloadView { session_id, id, name, value }, rest)),
                    None => None,
                },
                None => None,
            },
            None => None,
        },
        None => None,
    }
}

/// The payload that `bytes` encode: they must hold one payload and nothing
/// more.
pub open spec fn decode_payload(bytes: Seq<u8>) -> Option<PayloadView> {
    match parse_payload(bytes) {
        Some((p, rest)) => if rest.len() == 0 {
            Some(p)
        } else {
            None
        },
        None => None,
    }
}

/// Whether a payload can be encoded: the lengths of its name and of its
/// value fit the 64 bits of a length field.
pub open spec fn payload_encodable(p: PayloadView) -> bool {
    &&& encode_utf8(p.name).len() <= u64::MAX
    &&& match p.value {
        Ok(bytes) => bytes.len() <= u64::MAX,
        Err(e) => e.encodable(),
    }
}

/// Reading the value of a payload written in front of `rest` gives it back.
pub proof fn lemma_parse_outcome(value: Result<Seq<u8>, ErrorView>, rest: Seq<u8>)
    requires
        match value {
            Ok(bytes) => bytes.len() <= u64::MAX,
            Err(e) => e.encodable(),
        },
    ensures
        parse_outcome(encode_outcome(value) + rest) == Some((value, rest)),
{
    match value {
        Ok(bytes) => {
            assert(encode_outcome(value) + rest =~= encode_u32(0) + (encode_bytes(bytes) + rest));
            lemma_parse_u32(0, encode_bytes(bytes) + rest);
            lemma_parse_bytes(bytes, rest);
        },
        Err(e) => {
            assert(encode_outcome(value) + rest =~= encode_u32(1) + (encode_error(e) + rest));
            lemma_parse_u32(1, encode_error(e) + rest);
            lemma_parse_error(e, rest);
        },
    }
}

/// Reading a payload written in front of `rest` gives it back.
pub proof fn lemma_parse_payload(p: PayloadView, rest: Seq<u8>)
    requires
        payload_encodable(p),
    ensures
        parse_payload(encode_payload(p) + rest) == Some((p, rest)),
{
    let tail3 = encode_outcome(p.value) + rest;
    let tail2 = encode_text(p.name) + tail3;
    let tail1 = encode_option_u32(p.id) + tail2;
    let all = encode_payload(p) + rest;
    assert(all =~= encode_option_u64(p.session_id) + tail1);
    assert(parse_option_u64(all) == Some((p.session_id, tail1))) by {
        lemma_parse_option_u64(p.session_id, tail1);
    }
    assert(parse_option_u32(tail1) == Some((p.id, tail2))) by {
        lemma_parse_option_u32(p.id, tail2);
    }
    assert(parse_text(tail2) == Some((p.name, tail3))) by {
        lemma_parse_text(p.name, tail3);
    }
    assert(parse_outcome(tail3) == Some((p.value, rest))) by {
        lemma_parse_outcome(p.value, rest);
    }
}

/// Decoding the encoding of a payload gives the payload back.
pub proof fn lemma_payload_round_trip(p: PayloadView)
    requires
        payload_encodable(p),
    ensures
        decode_payload(encode_payload(p)) == Some(p),
{
    assert(encode_payload(p) + Seq::<u8>::empty() =~= encode_payload(p));
    lemma_parse_payload(p, Seq::<u8>::empty());
}

impl Payload {
    /// The bytes of the payload.
    pub fn encode(&self) -> (bytes: Vec<u8>)
        ensures
            bytes@ == encode_payload(self@),
            payload_encodable(self@),
    {
        let mut out: Vec<u8> = Vec::new();
        let session_id = match self.session_id {
            Some(id) => Some(id.0),
            None => None,
        };
        write_option_u64(&mut out, session_id);
        write_option_u32(&mut out, self.id);
        write_text(&mut out, self.name.as_str());
        match &self.value {
            Ok(bytes) => {
                write_u32(&mut out, 0);
                write_bytes(&mut out, bytes.as_slice());
            },
            Err(e) => {
                write_u32(&mut out, 1);
                e.write(&mut out);
            },
        }
        assert(out@ =~= encode_payload(self@));
        out
    }

    /// The payload that `bytes` encode, or `None` if they encode none.
    pub fn decode(bytes: &[u8]) -> (payload: Option<Payload>)
        ensures
            match payload {
                Some(p) => decode_payload(bytes@) == Some(p@),
                None => decode_payload(bytes@) is None,
            },
    {
        assert(bytes@.skip(0) =~= bytes@);
        let (session_id, next) = match read_option_u64(bytes, 0) {
            Some(r) => r,
            None => { return None; },
        };
        let (id, next) = match read_option_u32(bytes, next) {
            Some(r) => r,
            None => { return None; },
        };
        let (name, next) = match read_text(bytes, next) {
            Some(r) => r,
            None => { return None; },
        };
        let (kind, next) = match read_u32(bytes, next) {
            Some(r) => r,
            None => { return None; },
        };
        let (value, end) = if kind == 0 {
            match read_bytes(bytes, next) {
                Some((content, end)) => (Ok(content), end),
                None => { return None; },
            }
        } else if kind == 1 {
            match crate::error::Error::read(bytes, next) {
                Some((e, end)) => (Err(e), end),
                None => { return None; },
            }
        } else {
            return None;
        };
        if end != bytes.len() {
            return None;
        }
        Some(
            Payload {
                session_id: match session_id {
                    Some(v) => Some(SessionId(v)),
                    None => None,
                },
                id,
                name: Name { name },
                value,
            },
        )
    }
}

/// The bytes of a frame: the length of its content in 32 bits, and the
/// content.
pub open spec fn encode_frame(content: Seq<u8>) -> Seq<u8> {
    encode_u32(content.len() as u32) + content
}

/// Reads a frame from the front of `s`: its content and what follows it.
/// `None` where `s` does not hold a whole frame yet.
pub open spec fn parse_frame(s: Seq<u8>) -> Option<(Seq<u8>, Seq<u8>)> {
    match parse_u32(s) {
        Some((len, rest)) => if len <= rest.len() {
            Some((rest.take(len as int), rest.skip(len as int)))
        } else {
            None
        },
        None => None,
    }
}

/// Reading a frame written in front of `rest` gives its content back.
pub proof fn lemma_parse_frame(content: Seq<u8>, rest: Seq<u8>)
    requires
        content.len() <= u32::MAX,
    ensures
        parse_frame(encode_frame(content) + rest) == Some((content, rest)),
{
    let s = encode_frame(content) + rest;
    assert(s =~= encode_u32(content.len() as u32) + (content + rest));
    lemma_parse_u32(content.len() as u32, content + rest);
    assert((content + rest).take(content.len() as int) =~= content);
    assert((content + rest).skip(content.len() as int) =~= rest);
}

/// Appends `content` as a frame. Content of more than `u32::MAX` bytes has
/// no frame: then nothing is appended and `false` is returned.
pub fn write_frame(out: &mut Vec<u8>, content: &[u8]) -> (written: bool)
    ensures
        written == (content@.len() <= u32::MAX),
        final(out)@ == (if written {
            old(out)@ + encode_frame(content@)
        } else {
            old(out)@
        }),
{
    if content.len() > 0xffff_ffff {
        return false;
    }
    write_u32(out, content.len() as u32);
    write_raw(out, content);
    assert(out@ =~= old(out)@ + encode_frame(content@));
    true
}

/// Reads the frame that starts at `pos`: its content and the position
/// after it. `None` where the input does not hold the whole frame yet.
pub fn read_frame(input: &[u8], pos: usize) -> (r: Option<(Vec<u8>, usize)>)
    requires
        pos <= input@.len(),
    ensures
        match r {
            Some((content, next)) => {
                &&& pos <= next <= input@.len()
                &&& parse_frame(input@.skip(pos as int)) == Some(
                    (content@, input@.skip(next as int)),
                )
            },
            None => parse_frame(input@.skip(pos as int)) is None,
        },
{
    let (len, start) = match read_u32(input, pos) {
        Some(r) => r,
        None => { return None; },
    };
    if len as u64 > (input.len() - start) as u64 {
        return None;
    }
    let end: usize = start + len as usize;
    let content = crate::codec::copy_range(input, start, end);
    assert(input@.skip(start as int).take(len as int) =~= content@);
    assert(input@.skip(start as int).skip(len as int) =~= input@.skip(end as int));
    Some((content, end))
}

/// Checks the version of the protocol that a peer offers at the start of a
/// connection: it must be the version of this library.
pub fn check_protocol_version(offered: &str) -> (r: Result<(), crate::error::Error>)
    ensures
        match r {
            Ok(_) => offered@ == CURRENT_PROTOCOL_VERSION@,
            Err(e) => offered@ != CURRENT_PROTOCOL_VERSION@ && e@ == ErrorView::ProtocolVersionMismatch,
        },
{
    if str_equal(offered, CURRENT_PROTOCOL_VERSION) {
        Ok(())
    } else {
        Err(crate::error::Error::ProtocolVersionMismatch)
    }
}

/// The requests that a server answers, by their names.
#[derive(Clone, Copy, Debug, PartialEq, Eq, Structural)]
pub enum RequestKind {
    /// The request `CreateDatabase`.
    CreateDatabase,
    /// The request `DeleteDatabase`.
    DeleteDatabase,
    /// The request `ListDatabases`.
    ListDatabases,
    /// The request `ListAvailableSchemas`.
    ListAvailableSchemas,
    /// The request `CreateUser`.
    CreateUser,
    /// The request `DeleteUser`.
    DeleteUser,
    /// The request `SetUserPassword`.
    SetUserPassword,
    /// The request `Authenticate`.
    Authenticate,
    /// The request `AssumeIdentity`.
    AssumeIdentity,
    /// The request `AlterUserPermissionGroupMembership`.
    AlterUserPermissionGroupMembership,
    /// The request `AlterUserRoleMembership`.
    AlterUserRoleMembership,
    /// The request `Get`.
    Get,
    /// The request `GetMultiple`.
    GetMultiple,
    /// The request `List`.
    List,
    /// The request `Count`.
    Count,
    /// The request `Query`.
    Query,
    /// The request `QueryWithDocs`.
    QueryWithDocs,
    /// The request `Reduce`.
    Reduce,
    /// The request `ReduceGrouped`.
    ReduceGrouped,
    /// The request `DeleteDocs`.
    DeleteDocs,
    /// The request `ApplyTransaction`.
    ApplyTransaction,
    /// The request `ListExecutedTransactions`.
    ListExecutedTransactions,
    /// The request `LastTransactionId`.
    LastTransactionId,
    /// The request `CreateSubscriber`.
    CreateSubscriber,
    /// The request `Publish`.
    Publish,
    /// The request `PublishToAll`.
    PublishToAll,
    /// The request `SubscribeTo`.
    SubscribeTo,
    /// The request `MessageReceived`.
    MessageReceived,
    /// The request `UnsubscribeFrom`.
    UnsubscribeFrom,
    /// The request `UnregisterSubscriber`.
    UnregisterSubscriber,
    /// The request `ExecuteKeyOperation`.
    ExecuteKeyOperation,
    /// The request `CompactCollection`.
    CompactCollection,
    /// The request `CompactKeyValueStore`.
    CompactKeyValueStore,
    /// The request `Compact`.
    Compact,
}

impl RequestKind {
    /// The text of the name of the request.
    pub open spec fn spec_name(self) -> Seq<char> {
        match self {
            RequestKind::CreateDatabase => "CreateDatabase"@,
            RequestKind::DeleteDatabase => "DeleteDatabase"@,
            RequestKind::ListDatabases => "ListDatabases"@,
            RequestKind::ListAvailableSchemas => "ListAvailableSchemas"@,
            RequestKind::CreateUser => "CreateUser"@,
            RequestKind::DeleteUser => "DeleteUser"@,
            RequestKind::SetUserPassword => "SetUserPassword"@,
            RequestKind::Authenticate => "Authenticate"@,
            RequestKind::AssumeIdentity => "AssumeIdentity"@,
            RequestKind::AlterUserPermissionGroupMembership => "AlterUserPermissionGroupMembership"@,
            RequestKind::AlterUserRoleMembership => "AlterUserRoleMembership"@,
            RequestKind::Get => "Get"@,
            RequestKind::GetMultiple => "GetMultiple"@,
            RequestKind::List => "List"@,
            RequestKind::Count => "Count"@,
            RequestKind::Query => "Query"@,
            RequestKind::QueryWithDocs => "QueryWithDocs"@,
            RequestKind::Reduce => "Reduce"@,
            RequestKind::ReduceGrouped => "ReduceGrouped"@,
            RequestKind::DeleteDocs => "DeleteDocs"@,
            RequestKind::ApplyTransaction => "ApplyTransaction"@,
            RequestKind::ListExecutedTransactions => "ListExecutedTransactions"@,
            RequestKind::LastTransactionId => "LastTransactionId"@,
            RequestKind::CreateSubscriber => "CreateSubscriber"@,
            RequestKind::Publish => "Publish"@,
            RequestKind::PublishToAll => "PublishToAll"@,
            RequestKind::SubscribeTo => "SubscribeTo"@,
            RequestKind::MessageReceived => "MessageReceived"@,
            RequestKind::UnsubscribeFrom => "UnsubscribeFrom"@,
            RequestKind::UnregisterSubscriber => "UnregisterSubscriber"@,
            RequestKind::ExecuteKeyOperation => "ExecuteKeyOperation"@,
            RequestKind::CompactCollection => "CompactCollection"@,
            RequestKind::CompactKeyValueStore => "CompactKeyValueStore"@,
            RequestKind::Compact => "Compact"@,
        }
    }

    /// Whether the request is made of one database, which it names.
    pub open spec fn spec_of_database(self) -> bool {
        match self {
            RequestKind::CreateDatabase => false,
            RequestKind::DeleteDatabase => false,
            RequestKind::ListDatabases => false,
            RequestKind::ListAvailableSchemas => false,
            RequestKind::CreateUser => false,
            RequestKind::DeleteUser => false,
            RequestKind::SetUserPassword => false,
            RequestKind::Authenticate => false,
            RequestKind::AssumeIdentity => false,
            RequestKind::AlterUserPermissionGroupMembership => false,
            RequestKind::AlterUserRoleMembership => false,
            RequestKind::Get => true,
            RequestKind::GetMultiple => true,
            RequestKind::List => true,
            RequestKind::Count => true,
            RequestKind::Query => true,
            RequestKind::QueryWithDocs => true,
            RequestKind::Reduce => true,
            RequestKind::ReduceGrouped => true,
            RequestKind::DeleteDocs => true,
            RequestKind::ApplyTransaction => true,
            RequestKind::ListExecutedTransactions => true,
            RequestKind::LastTransactionId => true,
            RequestKind::CreateSubscriber => true,
            RequestKind::Publish => true,
            RequestKind::PublishToAll => true,
            RequestKind::SubscribeTo => true,
            RequestKind::MessageReceived => false,
            RequestKind::UnsubscribeFrom => true,
            RequestKind::UnregisterSubscriber => true,
            RequestKind::ExecuteKeyOperation => true,
            RequestKind::CompactCollection => true,
            RequestKind::CompactKeyValueStore => true,
            RequestKind::Compact => true,
        }
    }

    /// The name of the request.
    pub fn name(&self) -> (n: Name)
        ensures
            n@ == self.spec_name(),
            valid_name(n@),
    {
        match self {
            RequestKind::CreateDatabase => CreateDatabase::name(),
            RequestKind::DeleteDatabase => DeleteDatabase::name(),
            RequestKind::ListDatabases => ListDatabases::name(),
            RequestKind::ListAvailableSchemas => ListAvailableSchemas::name(),
            RequestKind::CreateUser => CreateUser::name(),
            RequestKind::DeleteUser => DeleteUser::name(),
            RequestKind::SetUserPassword => SetUserPassword::name(),
            RequestKind::Authenticate => Authenticate::name(),
            RequestKind::AssumeIdentity => AssumeIdentity::name(),
            RequestKind::AlterUserPermissionGroupMembership => AlterUserPermissionGroupMembership::name(),
            RequestKind::AlterUserRoleMembership => AlterUserRoleMembership::name(),
            RequestKind::Get => Get::name(),
            RequestKind::GetMultiple => GetMultiple::name(),
            RequestKind::List => List::name(),
            RequestKind::Count => Count::name(),
            RequestKind::Query => Query::name(),
            RequestKind::QueryWithDocs => QueryWithDocs::name(),
            RequestKind::Reduce => Reduce::name(),
            RequestKind::ReduceGrouped => ReduceGrouped::name(),
            RequestKind::DeleteDocs => DeleteDocs::name(),
            RequestKind::ApplyTransaction => ApplyTransaction::name(),
            RequestKind::ListExecutedTransactions => ListExecutedTransactions::name(),
            RequestKind::LastTransactionId => LastTransactionId::name(),
            RequestKind::CreateSubscriber => CreateSubscriber::name(),
            RequestKind::Publish => Publish::name(),
            RequestKind::PublishToAll => PublishToAll::name(),
            RequestKind::SubscribeTo => SubscribeTo::name(),
            RequestKind::MessageReceived => MessageReceived::name(),
            RequestKind::UnsubscribeFrom => UnsubscribeFrom::name(),
            RequestKind::UnregisterSubscriber => UnregisterSubscriber::name(),
            RequestKind::ExecuteKeyOperation => ExecuteKeyOperation::name(),
            RequestKind::CompactCollection => CompactCollection::name(),
            RequestKind::CompactKeyValueStore => CompactKeyValueStore::name(),
            RequestKind::Compact => Compact::name(),
        }
    }

    /// Whether the request is made of one database, which it names.
    pub fn of_database(&self) -> (r: bool)
        ensures
            r == self.spec_of_database(),
    {
        match self {
            RequestKind::CreateDatabase => false,
            RequestKind::DeleteDatabase => false,
            RequestKind::ListDatabases => false,
            RequestKind::ListAvailableSchemas => false,
            RequestKind::CreateUser => false,
            RequestKind::DeleteUser => false,
            RequestKind::SetUserPassword => false,
            RequestKind::Authenticate => false,
            RequestKind::AssumeIdentity => false,
            RequestKind::AlterUserPermissionGroupMembership => false,
            RequestKind::AlterUserRoleMembership => false,
            RequestKind::Get => true,
            RequestKind::GetMultiple => true,
            RequestKind::List => true,
            RequestKind::Count => true,
            RequestKind::Query => true,
            RequestKind::QueryWithDocs => true,
            RequestKind::Reduce => true,
            RequestKind::ReduceGrouped => true,
            RequestKind::DeleteDocs => true,
            RequestKind::ApplyTransaction => true,
            RequestKind::ListExecutedTransactions => true,
            RequestKind::LastTransactionId => true,
            RequestKind::CreateSubscriber => true,
            RequestKind::Publish => true,
            RequestKind::PublishToAll => true,
            RequestKind::SubscribeTo => true,
            RequestKind::MessageReceived => false,
            RequestKind::UnsubscribeFrom => true,
            RequestKind::UnregisterSubscriber => true,
            RequestKind::ExecuteKeyOperation => true,
            RequestKind::CompactCollection => true,
            RequestKind::CompactKeyValueStore => true,
            RequestKind::Compact => true,
        }
    }

    /// The request with the name `name`. Fails with `ApiNotRegistered` if
    /// no request has the name.
    pub fn from_name(name: &Name) -> (r: Result<RequestKind, crate::error::Error>)
        ensures
            match r {
                Ok(kind) => kind.spec_name() == name@,
                Err(e) => e@ == ErrorView::ApiNotRegistered(name@) && forall|kind: RequestKind|
                    #[trigger] kind.spec_name() != name@,
            },
    {
        let text = name.as_str();
        if str_equal(text, "CreateDatabase") {
            Ok(RequestKind::CreateDatabase)
        } else if str_equal(text, "DeleteDatabase") {
            Ok(RequestKind::DeleteDatabase)
        } else if str_equal(text, "ListDatabases") {
            Ok(RequestKind::ListDatabases)
        } else if str_equal(text, "ListAvailableSchemas") {
            Ok(RequestKind::ListAvailableSchemas)
        } else if str_equal(text, "CreateUser") {
            Ok(RequestKind::CreateUser)
        } else if str_equal(text, "DeleteUser") {
            Ok(RequestKind::DeleteUser)
        } else if str_equal(text, "SetUserPassword") {
            Ok(RequestKind::SetUserPassword)
        } else if str_equal(text, "Authenticate") {
            Ok(RequestKind::Authenticate)
        } else if str_equal(text, "AssumeIdentity") {
            Ok(RequestKind::AssumeIdentity)
        } else if str_equal(text, "AlterUserPermissionGroupMembership") {
            Ok(RequestKind::AlterUserPermissionGroupMembership)
        } else if str_equal(text, "AlterUserRoleMembership") {
            Ok(RequestKind::AlterUserRoleMembership)
        } else if str_equal(text, "Get") {
            Ok(RequestKind::Get)
        } else if str_equal(text, "GetMultiple") {
            Ok(RequestKind::GetMultiple)
        } else if str_equal(text, "List") {
            Ok(RequestKind::List)
        } else if str_equal(text, "Count") {
            Ok(RequestKind::Count)
        } else if str_equal(text, "Query") {
            Ok(RequestKind::Query)
        } else if str_equal(text, "QueryWithDocs") {
            Ok(RequestKind::QueryWithDocs)
        } else if str_equal(text, "Reduce") {
            Ok(RequestKind::Reduce)
        } else if str_equal(text, "ReduceGrouped") {
            Ok(RequestKind::ReduceGrouped)
        } else if str_equal(text, "DeleteDocs") {
            Ok(RequestKind::DeleteDocs)
        } else if str_equal(text, "ApplyTransaction") {
            Ok(RequestKind::ApplyTransaction)
        } else if str_equal(text, "ListExecutedTransactions") {
            Ok(RequestKind::ListExecutedTransactions)
        } else if str_equal(text, "LastTransactionId") {
            Ok(RequestKind::LastTransactionId)
        } else if str_equal(text, "CreateSubscriber") {
            Ok(RequestKind::CreateSubscriber)
        } else if str_equal(text, "Publish") {
            Ok(RequestKind::Publish)
        } else if str_equal(text, "PublishToAll") {
            Ok(RequestKind::PublishToAll)
        } else if str_equal(text, "SubscribeTo") {
            Ok(RequestKind::SubscribeTo)
        } else if str_equal(text, "MessageReceived") {
            Ok(RequestKind::MessageReceived)
        } else if str_equal(text, "UnsubscribeFrom") {
            Ok(RequestKind::UnsubscribeFrom)
        } else if str_equal(text, "UnregisterSubscriber") {
            Ok(RequestKind::UnregisterSubscriber)
        } else if str_equal(text, "ExecuteKeyOperation") {
            Ok(RequestKind::ExecuteKeyOperation)
        } else if str_equal(text, "CompactCollection") {
            Ok(RequestKind::CompactCollection)
        } else if str_equal(text, "CompactKeyValueStore") {
            Ok(RequestKind::CompactKeyValueStore)
        } else if str_equal(text, "Compact") {
            Ok(RequestKind::Compact)
        } else {
            Err(crate::error::Error::ApiNotRegistered(String::from_str(text)))
        }
    }
}

/// No two requests have the same name: a name stands for one request.
pub proof fn lemma_names_distinct(a: RequestKind, b: RequestKind)
    requires
        a.spec_name() == b.spec_name(),
    ensures
        a == b,
{
    reveal_strlit("CreateDatabase");
    reveal_strlit("DeleteDatabase");
    reveal_strlit("ListDatabases");
    reveal_strlit("ListAvailableSchemas");
    reveal_strlit("CreateUser");
    reveal_strlit("DeleteUser");
    reveal_strlit("SetUserPassword");
    reveal_strlit("Authenticate");
    reveal_strlit("AssumeIdentity");
    reveal_strlit("AlterUserPermissionGroupMembership");
    reveal_strlit("AlterUserRoleMembership");
    reveal_strlit("Get");
    reveal_strlit("GetMultiple");
    reveal_strlit("List");
    reveal_strlit("Count");
    reveal_strlit("Query");
    reveal_strlit("QueryWithDocs");
    reveal_strlit("Reduce");
    reveal_strlit("ReduceGrouped");
    reveal_strlit("DeleteDocs");
    reveal_strlit("ApplyTransaction");
    reveal_strlit("ListExecutedTransactions");
    reveal_strlit("LastTransactionId");
    reveal_strlit("CreateSubscriber");
    reveal_strlit("Publish");
    reveal_strlit("PublishToAll");
    reveal_strlit("SubscribeTo");
    reveal_strlit("MessageReceived");
    reveal_strlit("UnsubscribeFrom");
    reveal_strlit("UnregisterSubscriber");
    reveal_strlit("ExecuteKeyOperation");
    reveal_strlit("CompactCollection");
    reveal_strlit("CompactKeyValueStore");
    reveal_strlit("Compact");
    if a != b {
        let x = a.spec_name();
        let y = b.spec_name();
        assert(x.len() == y.len());
        assert(x[0] == y[0]);
        assert(x[1] == y[1]);
        assert(x[2] == y[2]);
        assert(x[x.len() - 1] == y[y.len() - 1]);
        assert(x[x.len() - 2] == y[y.len() - 2]);
        assert(x[x.len() - 3] == y[y.len() - 3]);
    }
}

} // verus!
