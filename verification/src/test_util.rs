//! A small schema to try a database with: a collection of users, each a
//! document whose contents are the name of the user.

use crate::codec::copy_bytes;
use crate::document::{id_of_u64, DocumentId, DocumentView, OwnedDocument};
use crate::error::{Error, ErrorView};
use crate::schema::view::{Emitted, Mapping};
use crate::schema::{
    CollectionName, Declared, Defined, InvalidNameError, Name, Schema, SchemaName, Schematic,
    SchematicView, ViewDefinition, ViewName,
};
use crate::text::str_equal;
use vstd::bytes::{spec_u64_to_le_bytes, u64_to_le_bytes};
use vstd::prelude::*;

verus! {

/// The schema: the collection `users` of the authority `khonsulabs`, with
/// the unique view `by-name`, which holds each user under their name, and
/// the view `by-length`, which holds the name of each user under its
/// length. The views reduce to the number of their values.
#[derive(Debug)]
pub struct Basic;

/// The name of the collection of the users.
pub open spec fn users() -> (Seq<char>, Seq<char>) {
    ("khonsulabs"@, "users"@)
}

impl Basic {
    /// The name of the collection of the users.
    pub fn users() -> (name: CollectionName)
        ensures
            name@ == users(),
            name.wf(),
    {
        proof {
            reveal_strlit("khonsulabs");
            reveal_strlit("users");
        }
        CollectionName { authority: Name::from("khonsulabs"), name: Name::from("users") }
    }

    /// The name of the view of the users by their names.
    pub fn by_name() -> (name: ViewName)
        ensures
            name@ == (users(), "by-name"@),
    {
        ViewName { collection: Self::users(), name: Name::from("by-name") }
    }

    /// The name of the view of the users by the lengths of their names.
    pub fn by_length() -> (name: ViewName)
        ensures
            name@ == (users(), "by-length"@),
    {
        ViewName { collection: Self::users(), name: Name::from("by-length") }
    }
}

impl Schema for Basic {
    open spec fn spec_map(view: ((Seq<char>, Seq<char>), Seq<char>), document: DocumentView) -> Result<
        Emitted,
        ErrorView,
    > {
        if view == (users(), "by-name"@) {
            Ok(seq![(document.contents, Seq::<u8>::empty())])
        } else if view == (users(), "by-length"@) {
            Ok(seq![(id_of_u64(document.contents.len() as u64), document.contents)])
        } else {
            Ok(Seq::empty())
        }
    }

    open spec fn spec_reduce(view: ((Seq<char>, Seq<char>), Seq<char>), values: Seq<Seq<u8>>) -> Result<
        Seq<u8>,
        ErrorView,
    > {
        Ok(spec_u64_to_le_bytes(values.len() as u64))
    }

    open spec fn spec_schema_name() -> (Seq<char>, Seq<char>) {
        ("khonsulabs"@, "basic"@)
    }

    open spec fn spec_define_collections(schema: SchematicView) -> Defined {
        schema.define_collection(users()).and_view(
            Declared { name: (users(), "by-name"@), unique: true, version: 1 },
        ).and_view(Declared { name: (users(), "by-length"@), unique: false, version: 1 })
    }

    fn schema_name() -> (r: Result<SchemaName, InvalidNameError>) {
        SchemaName::new("khonsulabs", "basic")
    }

    fn define_collections(schema: &mut Schematic) -> (r: Result<(), Error>) {
        match schema.define_collection(Self::users()) {
            Ok(_) => {},
            Err(e) => { return Err(e); },
        }
        match schema.define_view(
            ViewDefinition { name: Self::by_name(), unique: true, version: 1 },
        ) {
            Ok(_) => {},
            Err(e) => { return Err(e); },
        }
        schema.define_view(ViewDefinition { name: Self::by_length(), unique: false, version: 1 })
    }

    fn map(view: &ViewName, document: &OwnedDocument) -> (r: Result<Vec<Mapping>, Error>) {
        let of_users = str_equal(view.collection.authority.as_str(), "khonsulabs") && str_equal(
            view.collection.name.as_str(),
            "users",
        );
        let mut pairs: Vec<Mapping> = Vec::new();
        if of_users && str_equal(view.name.as_str(), "by-name") {
            pairs.push(
                Mapping { key: copy_bytes(document.contents.as_slice()), value: Vec::new() },
            );
            assert(crate::schema::view::mappings_view(pairs) =~= seq![
                (document@.contents, Seq::<u8>::empty()),
            ]);
        } else if of_users && str_equal(view.name.as_str(), "by-length") {
            let length = DocumentId::from_u64(document.contents.len() as u64);
            pairs.push(
                Mapping {
                    key: copy_bytes(length.as_bytes()),
                    value: copy_bytes(document.contents.as_slice()),
                },
            );
            assert(crate::schema::view::mappings_view(pairs) =~= seq![
                (id_of_u64(document@.contents.len() as u64), document@.contents),
            ]);
        } else {
            assert(crate::schema::view::mappings_view(pairs) =~= Seq::empty());
        }
        Ok(pairs)
    }

    fn reduce(view: &ViewName, values: &Vec<Vec<u8>>) -> (r: Result<Vec<u8>, Error>) {
        assert(crate::schema::view::values_view(*values).len() == values@.len());
        Ok(u64_to_le_bytes(values.len() as u64))
    }
}

} // verus!
