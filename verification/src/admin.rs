//! The schema of the administrative data of a server.

use crate::document::{DocumentView, OwnedDocument};
use crate::error::{Error, ErrorView};
use crate::permissions::role::{ByName, Role};
use crate::schema::view::{Emitted, Mapping};
use crate::schema::{
    Collection, Declared, Defined, InvalidNameError, MapView, Schema, SchemaName, Schematic,
    SchematicView, ViewName,
};
use crate::text::str_equal;
use vstd::prelude::*;

verus! {

/// The schema of the administrative data: the collection of the roles.
#[derive(Debug)]
pub struct Admin;

/// Whether `view` is the view of the roles by their names.
pub open spec fn is_roles_by_name(view: ((Seq<char>, Seq<char>), Seq<char>)) -> bool {
    view == (("khonsulabs"@, "role"@), "by-name"@)
}

impl Schema for Admin {
    open spec fn spec_map(view: ((Seq<char>, Seq<char>), Seq<char>), document: DocumentView) -> Result<
        Emitted,
        ErrorView,
    > {
        if is_roles_by_name(view) {
            ByName.spec_map(document)
        } else {
            Ok(Seq::empty())
        }
    }

    open spec fn spec_reduce(view: ((Seq<char>, Seq<char>), Seq<char>), values: Seq<Seq<u8>>) -> Result<
        Seq<u8>,
        ErrorView,
    > {
        Ok(Seq::empty())
    }

    open spec fn spec_schema_name() -> (Seq<char>, Seq<char>) {
        ("khonsulabs"@, "bonsaidb-admin"@)
    }

    open spec fn spec_define_collections(schema: SchematicView) -> Defined {
        schema.define_collection(("khonsulabs"@, "role"@)).and_view(
            Declared { name: (("khonsulabs"@, "role"@), "by-name"@), unique: true, version: 1 },
        )
    }

    fn schema_name() -> (r: Result<SchemaName, InvalidNameError>) {
        SchemaName::new("khonsulabs", "bonsaidb-admin")
    }

    fn define_collections(schema: &mut Schematic) -> (r: Result<(), Error>) {
        proof {
            reveal_strlit("khonsulabs");
            reveal_strlit("role");
        }
        let name = match Role::collection_name() {
            Ok(name) => name,
            Err(e) => { return Err(Error::InvalidName(e.0)); },
        };
        match schema.define_collection(name) {
            Ok(_) => {},
            Err(e) => { return Err(e); },
        }
        Role::define_views(schema)
    }

    fn map(view: &ViewName, document: &OwnedDocument) -> (r: Result<Vec<Mapping>, Error>) {
        let roles_by_name = str_equal(view.collection.authority.as_str(), "khonsulabs")
            && str_equal(view.collection.name.as_str(), "role") && str_equal(
            view.name.as_str(),
            "by-name",
        );
        if roles_by_name {
            ByName.map(document)
        } else {
            let pairs: Vec<Mapping> = Vec::new();
            assert(crate::schema::view::mappings_view(pairs) =~= Seq::empty());
            Ok(pairs)
        }
    }

    fn reduce(view: &ViewName, values: &Vec<Vec<u8>>) -> (r: Result<Vec<u8>, Error>) {
        Ok(Vec::new())
    }
}

} // verus!
