//! Roles: named sets of permission groups that users can be given.

use crate::codec::{
    encode_text, encode_u64_list, lemma_parse_text, lemma_parse_u64_list, parse_text,
    parse_u64_list, read_text, read_u64_list, write_text, write_u64_list,
};
use crate::document::{DocumentView, OwnedDocument};
use crate::error::{Error, ErrorView};
use crate::schema::view::{Emitted, Mapping};
use crate::schema::{
    Collection, CollectionName, Declared, Defined, InvalidNameError, MapView, Name, Schematic,
    SchematicView,
};
use vstd::prelude::*;
use vstd::string::{StringExecFns, StringSliceAdditionalSpecFns};
use vstd::utf8::encode_utf8;

verus! {

/// An assignable role, which grants the permissions of the permission
/// groups that it belongs to.
#[derive(Debug, PartialEq, Eq)]
pub struct Role {
    /// The name of the role, which no other role has.
    pub name: String,
    /// The ids of the permission groups that the role belongs to.
    pub groups: Vec<u64>,
}

/// The mathematical content of a [`Role`].
pub struct RoleView {
    /// The name of the role.
    pub name: Seq<char>,
    /// The ids of its permission groups.
    pub groups: Seq<u64>,
}

impl View for Role {
    type V = RoleView;

    open spec fn view(&self) -> RoleView {
        RoleView { name: self.name@, groups: self.groups@ }
    }
}

/// The bytes of a role: its name, then the ids of its groups.
pub open spec fn encode_role(role: RoleView) -> Seq<u8> {
    encode_text(role.name) + encode_u64_list(role.groups)
}

/// The role that `bytes` encode: they must hold one role and nothing more.
pub open spec fn decode_role(bytes: Seq<u8>) -> Option<RoleView> {
    match parse_text(bytes) {
        Some((name, rest)) => match parse_u64_list(rest) {
            Some((groups, rest)) => if rest.len() == 0 {
                Some(RoleView { name, groups })
            } else {
                None
            },
            None => None,
        },
        None => None,
    }
}

/// Decoding the encoding of a role gives the role back.
pub proof fn lemma_role_round_trip(role: RoleView)
    requires
        encode_utf8(role.name).len() <= u64::MAX,
        role.groups.len() <= u64::MAX,
    ensures
        decode_role(encode_role(role)) == Some(role),
{
    lemma_parse_text(role.name, encode_u64_list(role.groups));
    assert(encode_u64_list(role.groups) + Seq::<u8>::empty() =~= encode_u64_list(role.groups));
    lemma_parse_u64_list(role.groups, Seq::<u8>::empty());
}

/// The message of the error that contents that are no role give.
pub open spec fn not_a_role_message() -> Seq<char> {
    "the contents of the document are no role"@
}

impl Role {
    /// The bytes of the role.
    pub fn encode(&self) -> (bytes: Vec<u8>)
        ensures
            bytes@ == encode_role(self@),
    {
        let mut out: Vec<u8> = Vec::new();
        write_text(&mut out, self.name.as_str());
        write_u64_list(&mut out, &self.groups);
        assert(out@ =~= encode_role(self@));
        out
    }

    /// The role that `bytes` encode, or `None` if they encode none.
    pub fn decode(bytes: &[u8]) -> (role: Option<Role>)
        ensures
            match role {
                Some(r) => decode_role(bytes@) == Some(r@),
                None => decode_role(bytes@) is None,
            },
    {
        assert(bytes@.skip(0) =~= bytes@);
        let (name, next) = match read_text(bytes, 0) {
            Some(r) => r,
            None => { return None; },
        };
        let (groups, end) = match read_u64_list(bytes, next) {
            Some(r) => r,
            None => { return None; },
        };
        if end != bytes.len() {
            return None;
        }
        Some(Role { name, groups })
    }
}

impl Collection for Role {
    open spec fn spec_collection_name() -> (Seq<char>, Seq<char>) {
        ("khonsulabs"@, "role"@)
    }

    open spec fn spec_define_views(schema: SchematicView) -> Defined {
        schema.define_view(
            Declared { name: (("khonsulabs"@, "role"@), "by-name"@), unique: true, version: 1 },
        )
    }

    fn collection_name() -> (r: Result<CollectionName, InvalidNameError>) {
        proof {
            reveal_strlit("khonsulabs");
            reveal_strlit("role");
        }
        CollectionName::new("khonsulabs", "role")
    }

    fn define_views(schema: &mut Schematic) -> (r: Result<(), Error>) {
        proof {
            reveal_strlit("khonsulabs");
            reveal_strlit("role");
            reveal_strlit("by-name");
        }
        schema.define_view_of(&ByName)
    }
}

/// The view of the roles by their names: under the name of each role, the
/// role. No two roles have the same name.
#[derive(Debug)]
pub struct ByName;

impl MapView for ByName {
    type Collection = Role;

    open spec fn spec_unique(&self) -> bool {
        true
    }

    open spec fn spec_version(&self) -> u64 {
        1
    }

    open spec fn spec_name(&self) -> Seq<char> {
        "by-name"@
    }

    open spec fn spec_map(&self, document: DocumentView) -> Result<Emitted, ErrorView> {
        match decode_role(document.contents) {
            Some(role) => Ok(seq![(encode_utf8(role.name), Seq::<u8>::empty())]),
            None => Err(ErrorView::Other(not_a_role_message())),
        }
    }

    fn unique(&self) -> (r: bool) {
        true
    }

    fn version(&self) -> (r: u64) {
        1
    }

    fn name(&self) -> (r: Result<Name, InvalidNameError>) {
        proof {
            reveal_strlit("by-name");
        }
        Name::new("by-name")
    }

    fn map(&self, document: &OwnedDocument) -> (r: Result<Vec<Mapping>, Error>) {
        let role = match Role::decode(document.contents.as_slice()) {
            Some(role) => role,
            None => {
                return Err(
                    Error::Other(String::from_str("the contents of the document are no role")),
                );
            },
        };
        let mut pairs: Vec<Mapping> = Vec::new();
        pairs.push(
            Mapping {
                key: crate::codec::copy_bytes(role.name.as_str().as_bytes()),
                value: Vec::new(),
            },
        );
        assert(crate::schema::view::mappings_view(pairs) =~= seq![
            (encode_utf8(role.name@), Seq::<u8>::empty()),
        ]);
        Ok(pairs)
    }
}

} // verus!
