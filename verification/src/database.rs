//! A database and the operations on what it stores.

pub mod documents;
pub mod kv;
pub mod views;
pub mod writers;

use crate::database::documents::Documents;
use crate::error::Error;
use crate::pubsub::{Relay, SubscriberView};
use crate::schema::{Schema, SchematicView};
use crate::storage::Storage;
use vstd::prelude::*;

verus! {

/// A database of the schema `S`: its name, its key-value store and its
/// documents.
pub struct Database<S: Schema> {
    /// The name of the database.
    pub name: String,
    /// The trees of its key-value store and the schedule of its expiring
    /// keys.
    pub storage: Storage,
    /// Its documents, the indexes of its views and the log of its
    /// transactions.
    pub documents: Documents<S>,
    /// Its publish/subscribe broker.
    pub relay: Relay,
}

/// The number of messages that can wait for one subscriber of a database.
pub const MESSAGES_PER_SUBSCRIBER: usize = 1024;

impl<S: Schema> Database<S> {
    /// The invariant of a database: its storage is well formed, every
    /// entry that expires is scheduled at the time at which it does, and
    /// its documents are well formed.
    pub open spec fn wf(&self) -> bool {
        &&& self.storage.wf()
        &&& kv::schedule_covers(self.storage@)
        &&& self.documents.wf()
        &&& self.relay.wf()
    }

    /// An empty database of the name `name`, with the collections and the
    /// views that the definition of `S` makes of the schema without
    /// collections. Fails with the error of that definition where it
    /// fails.
    pub fn new(name: String) -> (r: Result<Self, Error>)
        ensures
            match r {
                Ok(db) => {
                    &&& S::spec_define_collections(SchematicView::empty()).error is None
                    &&& db.wf()
                    &&& db.name == name
                    &&& db.documents.schematic()@ == S::spec_define_collections(
                        SchematicView::empty(),
                    ).schema
                    &&& db.storage@.trees == Map::<(Seq<char>, Seq<u8>), Seq<u8>>::empty()
                    &&& db.storage@.expirations == Map::<
                        (Seq<char>, Seq<char>),
                        crate::keyvalue::Timestamp,
                    >::empty()
                    &&& db.documents.docs() == Map::<
                        crate::database::views::DocumentKey,
                        crate::document::DocumentView,
                    >::empty()
                    &&& db.documents.log() == Seq::<crate::transaction::ExecutedView>::empty()
                    &&& db.relay@ == Map::<u64, SubscriberView>::empty()
                    &&& db.relay.capacity() == MESSAGES_PER_SUBSCRIBER
                },
                Err(e) => S::spec_define_collections(SchematicView::empty()).error == Some(e@),
            },
    {
        let documents = match Documents::new() {
            Ok(documents) => documents,
            Err(e) => { return Err(e); },
        };
        Ok(
            Database {
                name,
                storage: Storage::new(),
                documents,
                relay: Relay::new(MESSAGES_PER_SUBSCRIBER),
            },
        )
    }
}

} // verus!
