//! The session manager: users, the permission groups and roles that they
//! belong to, and the sessions that act for them.
//!
//! A password never reaches this module. What is stored for a user is a
//! salt and the hash that the caller computed from the salt and the
//! password; to authenticate, the caller asks for the salt of the user,
//! hashes the password that was offered, and hands the hash over.

use crate::assoc::AssocList;
use crate::codec::copy_bytes;
use crate::connection::{Identity, Session, SessionId, Statement};
use crate::error::{Error, ErrorView};
use crate::ids::{insert_id, remove_id};
use crate::order::bytes_equal;
use crate::permissions::role::Role;
use crate::schema::{check_lower_name, valid_lower_name, NamedReference};
use crate::text::str_equal;
use vstd::prelude::*;
use vstd::string::{StringExecFns, StringSliceAdditionalSpecFns};
use vstd::utf8::encode_utf8;

verus! {

/// A user.
pub struct User {
    /// The name of the user, which no other user has.
    pub username: String,
    /// The salt that the password of the user was hashed with.
    pub salt: Vec<u8>,
    /// The hash of the password of the user, if one was set.
    pub password_hash: Option<Vec<u8>>,
    /// The ids of the permission groups that the user belongs to.
    pub groups: Vec<u64>,
    /// The ids of the roles that the user has.
    pub roles: Vec<u64>,
}

/// A permission group: a named list of permissions.
pub struct PermissionGroup {
    /// The name of the group, which no other group has.
    pub name: String,
    /// The permissions that the group grants.
    pub statements: Vec<Statement>,
}

/// Whether one of `statements` allows `action` on `resource`.
pub open spec fn allows_any(statements: Seq<Statement>, action: Seq<char>, resource: Seq<char>) -> bool {
    exists|i: int|
        0 <= i < statements.len() && (#[trigger] statements[i]).spec_allows(action, resource)
}

/// The text that names an identity as a resource: `user.` or `role.`, and
/// the id in decimal.
pub open spec fn identity_resource(identity: Identity) -> Seq<char> {
    match identity {
        Identity::User(id) => "user."@ + decimal(id),
        Identity::Role(id) => "role."@ + decimal(id),
    }
}

/// The character of the digit `d`.
pub open spec fn digit(d: int) -> char {
    if d == 0 {
        '0'
    } else if d == 1 {
        '1'
    } else if d == 2 {
        '2'
    } else if d == 3 {
        '3'
    } else if d == 4 {
        '4'
    } else if d == 5 {
        '5'
    } else if d == 6 {
        '6'
    } else if d == 7 {
        '7'
    } else if d == 8 {
        '8'
    } else {
        '9'
    }
}

/// The decimal digits of a number, the most significant first; those of
/// zero are `0`.
pub open spec fn decimal(v: u64) -> Seq<char>
    decreases v,
{
    if v < 10 {
        seq![digit(v as int)]
    } else {
        decimal(v / 10).push(digit((v % 10) as int))
    }
}

/// The digits of a number that come before its last: none for a number
/// below ten.
spec fn leading(v: u64) -> Seq<char> {
    if v == 0 {
        Seq::empty()
    } else {
        decimal(v)
    }
}

/// The characters of the digits `digits`, the last first.
spec fn written(digits: Seq<u8>) -> Seq<char>
    decreases digits.len(),
{
    if digits.len() == 0 {
        Seq::empty()
    } else {
        seq![digit(digits.last() as int)] + written(digits.drop_last())
    }
}

/// The text of the digit `d`.
fn digit_text(d: u8) -> (text: &'static str)
    requires
        d < 10,
    ensures
        text@ == seq![digit(d as int)],
{
    proof {
        reveal_strlit("0");
        reveal_strlit("1");
        reveal_strlit("2");
        reveal_strlit("3");
        reveal_strlit("4");
        reveal_strlit("5");
        reveal_strlit("6");
        reveal_strlit("7");
        reveal_strlit("8");
        reveal_strlit("9");
    }
    let text = if d == 0 {
        "0"
    } else if d == 1 {
        "1"
    } else if d == 2 {
        "2"
    } else if d == 3 {
        "3"
    } else if d == 4 {
        "4"
    } else if d == 5 {
        "5"
    } else if d == 6 {
        "6"
    } else if d == 7 {
        "7"
    } else if d == 8 {
        "8"
    } else {
        "9"
    };
    assert(text@ =~= seq![digit(d as int)]);
    text
}

/// The number in decimal.
fn to_decimal(v: u64) -> (s: String)
    ensures
        s@ == decimal(v),
{
    let mut digits: Vec<u8> = Vec::new();
    let mut rest: u64 = v;
    let last: u8 = (rest % 10) as u8;
    digits.push(last);
    rest = rest / 10;
    proof {
        assert(written(digits@) =~= seq![digit(last as int)]) by {
            assert(digits@.drop_last() =~= Seq::<u8>::empty());
            assert(written(digits@.drop_last()) =~= Seq::<char>::empty());
        }
        assert(decimal(v) =~= leading(rest) + written(digits@));
    }
    while rest > 0
        invariant
            decimal(v) == leading(rest) + written(digits@),
            forall|i: int| 0 <= i < digits@.len() ==> #[trigger] digits@[i] < 10,
        decreases rest,
    {
        let d: u8 = (rest % 10) as u8;
        let ghost before = digits@;
        digits.push(d);
        proof {
            assert(digits@.drop_last() =~= before);
            assert(leading(rest) =~= leading(rest / 10).push(digit(d as int)));
            assert(leading(rest) + written(before) =~= leading(rest / 10) + written(digits@));
        }
        rest = rest / 10;
    }
    let mut s = String::from_str("");
    let mut i: usize = digits.len();
    proof {
        reveal_strlit("");
        assert(digits@.take(i as int) =~= digits@);
        assert(s@ + written(digits@.take(i as int)) =~= written(digits@));
    }
    while i > 0
        invariant
            i <= digits@.len(),
            forall|j: int| 0 <= j < digits@.len() ==> #[trigger] digits@[j] < 10,
            s@ + written(digits@.take(i as int)) == written(digits@),
        decreases i,
    {
        let ghost before = s@;
        i -= 1;
        s.append(digit_text(digits[i]));
        proof {
            assert(digits@.take(i + 1).drop_last() =~= digits@.take(i as int));
            assert(digits@.take(i + 1).last() == digits@[i as int]);
            assert(s@ + written(digits@.take(i as int)) =~= before + written(
                digits@.take(i + 1),
            ));
        }
    }
    proof {
        assert(written(digits@.take(0)) =~= Seq::<char>::empty());
        assert(s@ =~= written(digits@));
    }
    s
}

/// The action of assuming an identity.
pub open spec fn assume_identity_action() -> Seq<char> {
    "AssumeIdentity"@
}

/// Whether the two sessions have the same id and identity and may do the
/// same.
pub open spec fn same_session(a: Session, b: Session) -> bool {
    &&& a.id == b.id
    &&& a.identity == b.identity
    &&& forall|action: Seq<char>, resource: Seq<char>|
        #[trigger] a.spec_allowed_to(action, resource) == b.spec_allowed_to(action, resource)
}

/// Appends copies of `more` to `statements`.
fn append_statements(statements: &mut Vec<Statement>, more: &Vec<Statement>)
    ensures
        forall|action: Seq<char>, resource: Seq<char>|
            #[trigger] allows_any(final(statements)@, action, resource) <==> (allows_any(
                old(statements)@,
                action,
                resource,
            ) || allows_any(more@, action, resource)),
{
    let mut i: usize = 0;
    while i < more.len()
        invariant
            i <= more@.len(),
            forall|action: Seq<char>, resource: Seq<char>|
                #[trigger] allows_any(statements@, action, resource) <==> (allows_any(
                    old(statements)@,
                    action,
                    resource,
                ) || allows_any(more@.take(i as int), action, resource)),
        decreases more@.len() - i,
    {
        let ghost before = statements@;
        let ghost seen = more@.take(i as int);
        let copy = more[i].clone();
        statements.push(copy);
        proof {
            let grown = more@.take(i + 1);
            assert forall|action: Seq<char>, resource: Seq<char>|
                #[trigger] allows_any(statements@, action, resource) <==> (allows_any(
                    old(statements)@,
                    action,
                    resource,
                ) || allows_any(grown, action, resource)) by {
                if allows_any(statements@, action, resource) {
                    let a = choose|a: int|
                        0 <= a < statements@.len() && (#[trigger] statements@[a]).spec_allows(
                            action,
                            resource,
                        );
                    if a < before.len() {
                        assert(before[a].spec_allows(action, resource));
                        assert(allows_any(before, action, resource));
                        if allows_any(seen, action, resource) {
                            let b = choose|b: int|
                                0 <= b < seen.len() && (#[trigger] seen[b]).spec_allows(
                                    action,
                                    resource,
                                );
                            assert(grown[b].spec_allows(action, resource));
                        }
                    } else {
                        assert(grown[i as int].spec_allows(action, resource));
                    }
                }
                if allows_any(old(statements)@, action, resource) {
                    assert(allows_any(before, action, resource));
                    let a = choose|a: int|
                        0 <= a < before.len() && (#[trigger] before[a]).spec_allows(
                            action,
                            resource,
                        );
                    assert(statements@[a].spec_allows(action, resource));
                }
                if allows_any(grown, action, resource) {
                    let b = choose|b: int|
                        0 <= b < grown.len() && (#[trigger] grown[b]).spec_allows(action, resource);
                    if b < i {
                        assert(seen[b].spec_allows(action, resource));
                        assert(allows_any(seen, action, resource));
                        assert(allows_any(before, action, resource));
                        let a = choose|a: int|
                            0 <= a < before.len() && (#[trigger] before[a]).spec_allows(
                                action,
                                resource,
                            );
                        assert(statements@[a].spec_allows(action, resource));
                    } else {
                        assert(statements@[before.len() as int].spec_allows(action, resource));
                    }
                }
            }
        }
        i += 1;
    }
    assert(more@.take(more@.len() as int) =~= more@);
}

/// The message of the error that the last id gives.
pub open spec fn out_of_ids_message() -> Seq<char> {
    "no id is left"@
}

/// The name of the view that keeps the names of the users apart.
pub open spec fn users_by_name() -> Seq<char> {
    "khonsulabs.user.by-name"@
}

/// The users, the permission groups, the roles and the sessions of a
/// server.
pub struct SessionManager {
    users: AssocList<u64, User>,
    groups: AssocList<u64, PermissionGroup>,
    roles: AssocList<u64, Role>,
    sessions: AssocList<u64, Session>,
    next_user_id: u64,
    next_group_id: u64,
    next_role_id: u64,
    next_session_id: u64,
}

impl SessionManager {
    /// The users by their ids.
    pub closed spec fn users(&self) -> Map<u64, User> {
        self.users@
    }

    /// The permission groups by their ids.
    pub closed spec fn groups(&self) -> Map<u64, PermissionGroup> {
        self.groups@
    }

    /// The roles by their ids.
    pub closed spec fn roles(&self) -> Map<u64, Role> {
        self.roles@
    }

    /// The sessions by their ids.
    pub closed spec fn sessions(&self) -> Map<u64, Session> {
        self.sessions@
    }

    /// The id that the next user gets.
    pub closed spec fn next_user_id(&self) -> u64 {
        self.next_user_id
    }

    /// The id that the next session gets.
    pub closed spec fn next_session_id(&self) -> u64 {
        self.next_session_id
    }

    /// The id that the next permission group gets.
    pub closed spec fn next_group_id(&self) -> u64 {
        self.next_group_id
    }

    /// The id that the next role gets.
    pub closed spec fn next_role_id(&self) -> u64 {
        self.next_role_id
    }

    /// The invariant: no two users have the same name, and the ids that
    /// were given out are below the next ones.
    pub closed spec fn wf(&self) -> bool {
        &&& self.users.wf()
        &&& self.groups.wf()
        &&& self.roles.wf()
        &&& self.sessions.wf()
        &&& forall|a: u64, b: u64|
            #[trigger] self.users@.contains_key(a) && #[trigger] self.users@.contains_key(b) && a
                != b ==> self.users@[a].username@ != self.users@[b].username@
        &&& forall|id: u64| #[trigger] self.users@.contains_key(id) ==> id < self.next_user_id
        &&& forall|id: u64| #[trigger] self.groups@.contains_key(id) ==> id < self.next_group_id
        &&& forall|id: u64| #[trigger] self.roles@.contains_key(id) ==> id < self.next_role_id
        &&& forall|id: u64| #[trigger]
            self.sessions@.contains_key(id) ==> id < self.next_session_id
    }

    /// Whether a group with one of the ids `ids` allows `action` on
    /// `resource`.
    pub open spec fn group_grants(
        &self,
        ids: Seq<u64>,
        action: Seq<char>,
        resource: Seq<char>,
    ) -> bool {
        exists|i: int|
            0 <= i < ids.len() && self.groups().contains_key(#[trigger] ids[i]) && allows_any(
                self.groups()[ids[i]].statements@,
                action,
                resource,
            )
    }

    /// Whether a group of a role with one of the ids `ids` allows `action`
    /// on `resource`.
    pub open spec fn role_grants(
        &self,
        ids: Seq<u64>,
        action: Seq<char>,
        resource: Seq<char>,
    ) -> bool {
        exists|j: int|
            0 <= j < ids.len() && self.roles().contains_key(#[trigger] ids[j])
                && self.group_grants(self.roles()[ids[j]].groups@, action, resource)
    }

    /// Whether one of the groups of the user, or of the roles of the user,
    /// allows `action` on `resource`.
    pub open spec fn user_grants(&self, user: User, action: Seq<char>, resource: Seq<char>) -> bool {
        self.group_grants(user.groups@, action, resource) || self.role_grants(
            user.roles@,
            action,
            resource,
        )
    }

    /// Whether `reference` names the user `id`.
    pub open spec fn names_user(&self, reference: NamedReference, id: u64) -> bool {
        self.users().contains_key(id) && match reference {
            NamedReference::Id(i) => i == id,
            NamedReference::Name(n) => self.users()[id].username@ == n@,
        }
    }

    /// Whether `reference` names the permission group `id`.
    pub open spec fn names_group(&self, reference: NamedReference, id: u64) -> bool {
        self.groups().contains_key(id) && match reference {
            NamedReference::Id(i) => i == id,
            NamedReference::Name(n) => self.groups()[id].name@ == n@,
        }
    }

    /// Whether `reference` names the role `id`.
    pub open spec fn names_role(&self, reference: NamedReference, id: u64) -> bool {
        self.roles().contains_key(id) && match reference {
            NamedReference::Id(i) => i == id,
            NamedReference::Name(n) => self.roles()[id].name@ == n@,
        }
    }

    /// A session manager without users.
    pub fn new() -> (manager: SessionManager)
        ensures
            manager.wf(),
            manager.users() == Map::<u64, User>::empty(),
            manager.groups() == Map::<u64, PermissionGroup>::empty(),
            manager.roles() == Map::<u64, Role>::empty(),
            manager.sessions() == Map::<u64, Session>::empty(),
            manager.next_user_id() == 1,
            manager.next_session_id() == 1,
            manager.next_group_id() == 1,
            manager.next_role_id() == 1,
    {
        SessionManager {
            users: AssocList::new(),
            groups: AssocList::new(),
            roles: AssocList::new(),
            sessions: AssocList::new(),
            next_user_id: 1,
            next_group_id: 1,
            next_role_id: 1,
            next_session_id: 1,
        }
    }

    /// The id of the user that `reference` names, if it names one.
    pub fn find_user(&self, reference: &NamedReference) -> (r: Option<u64>)
        requires
            self.wf(),
        ensures
            match r {
                Some(id) => self.names_user(*reference, id),
                None => forall|id: u64| !self.names_user(*reference, id),
            },
    {
        match reference {
            NamedReference::Id(id) => if self.users.contains_key(id) {
                Some(*id)
            } else {
                None
            },
            NamedReference::Name(name) => {
                let n = self.users.len();
                let mut i: usize = 0;
                proof {
                    self.users.lemma_key_positions();
                }
                while i < n
                    invariant
                        self.wf(),
                        *reference == NamedReference::Name(*name),
                        n == self.users.keys().len(),
                        i <= n,
                        forall|j: int|
                            0 <= j < n ==> self.users@.contains_key(#[trigger] self.users.keys()[j]),
                        forall|j: int|
                            0 <= j < i ==> self.users@[#[trigger] self.users.keys()[j]].username@
                                != name@,
                    decreases n - i,
                {
                    if str_equal(self.users.value_at(i).username.as_str(), name.as_str()) {
                        return Some(*self.users.key_at(i));
                    }
                    i += 1;
                }
                proof {
                    assert forall|id: u64| !self.names_user(*reference, id) by {
                        if self.users@.contains_key(id) {
                            let j = choose|j: int|
                                0 <= j < self.users.keys().len() && #[trigger] self.users.keys()[j]
                                    == id;
                        }
                    }
                }
                None
            },
        }
    }

    /// The id of the permission group that `reference` names, if it names
    /// one; of several groups with the name, the one that was created
    /// first.
    pub fn find_group(&self, reference: &NamedReference) -> (r: Option<u64>)
        requires
            self.wf(),
        ensures
            match r {
                Some(id) => self.names_group(*reference, id),
                None => forall|id: u64| !self.names_group(*reference, id),
            },
    {
        match reference {
            NamedReference::Id(id) => if self.groups.contains_key(id) {
                Some(*id)
            } else {
                None
            },
            NamedReference::Name(name) => {
                let n = self.groups.len();
                let mut i: usize = 0;
                proof {
                    self.groups.lemma_key_positions();
                }
                while i < n
                    invariant
                        self.wf(),
                        *reference == NamedReference::Name(*name),
                        n == self.groups.keys().len(),
                        i <= n,
                        forall|j: int|
                            0 <= j < n ==> self.groups@.contains_key(
                                #[trigger] self.groups.keys()[j],
                            ),
                        forall|j: int|
                            0 <= j < i ==> self.groups@[#[trigger] self.groups.keys()[j]].name@
                                != name@,
                    decreases n - i,
                {
                    if str_equal(self.groups.value_at(i).name.as_str(), name.as_str()) {
                        return Some(*self.groups.key_at(i));
                    }
                    i += 1;
                }
                proof {
                    assert forall|id: u64| !self.names_group(*reference, id) by {
                        if self.groups@.contains_key(id) {
                            let j = choose|j: int|
                                0 <= j < self.groups.keys().len()
                                    && #[trigger] self.groups.keys()[j] == id;
                        }
                    }
                }
                None
            },
        }
    }

    /// The id of the role that `reference` names, if it names one; of
    /// several roles with the name, the one that was created first.
    pub fn find_role(&self, reference: &NamedReference) -> (r: Option<u64>)
        requires
            self.wf(),
        ensures
            match r {
                Some(id) => self.names_role(*reference, id),
                None => forall|id: u64| !self.names_role(*reference, id),
            },
    {
        match reference {
            NamedReference::Id(id) => if self.roles.contains_key(id) {
                Some(*id)
            } else {
                None
            },
            NamedReference::Name(name) => {
                let n = self.roles.len();
                let mut i: usize = 0;
                proof {
                    self.roles.lemma_key_positions();
                }
                while i < n
                    invariant
                        self.wf(),
                        *reference == NamedReference::Name(*name),
                        n == self.roles.keys().len(),
                        i <= n,
                        forall|j: int|
                            0 <= j < n ==> self.roles@.contains_key(#[trigger] self.roles.keys()[j]),
                        forall|j: int|
                            0 <= j < i ==> self.roles@[#[trigger] self.roles.keys()[j]].name@
                                != name@,
                    decreases n - i,
                {
                    if str_equal(self.roles.value_at(i).name.as_str(), name.as_str()) {
                        return Some(*self.roles.key_at(i));
                    }
                    i += 1;
                }
                proof {
                    assert forall|id: u64| !self.names_role(*reference, id) by {
                        if self.roles@.contains_key(id) {
                            let j = choose|j: int|
                                0 <= j < self.roles.keys().len() && #[trigger] self.roles.keys()[j]
                                    == id;
                        }
                    }
                }
                None
            },
        }
    }

    /// Creates a user with the name `username`, without a password, and
    /// returns its id. Fails, and changes nothing, with `InvalidName` if
    /// the name is no name of a user, and with `UniqueKeyViolation` if a
    /// user has the name already.
    pub fn create_user(&mut self, username: &str) -> (r: Result<u64, Error>)
        requires
            old(self).wf(),
        ensures
            final(self).wf(),
            final(self).groups() == old(self).groups(),
            final(self).roles() == old(self).roles(),
            final(self).sessions() == old(self).sessions(),
            final(self).next_session_id() == old(self).next_session_id(),
            final(self).next_group_id() == old(self).next_group_id(),
            final(self).next_role_id() == old(self).next_role_id(),
            match r {
                Ok(id) => {
                    &&& valid_lower_name(username@, true)
                    &&& id == old(self).next_user_id()
                    &&& final(self).next_user_id() == id + 1
                    &&& final(self).users().dom() == old(self).users().dom().insert(id)
                    &&& forall|other: u64|
                        old(self).users().contains_key(other) ==> #[trigger] final(self).users()[other]
                            == old(self).users()[other] && old(self).users()[other].username@
                            != username@
                    &&& final(self).users()[id].username@ == username@
                    &&& final(self).users()[id].password_hash is None
                    &&& final(self).users()[id].groups@.len() == 0
                    &&& final(self).users()[id].roles@.len() == 0
                },
                Err(e) => {
                    &&& final(self).users() == old(self).users()
                    &&& final(self).next_user_id() == old(self).next_user_id()
                    &&& if !valid_lower_name(username@, true) {
                        e@ == ErrorView::InvalidName(username@)
                    } else if exists|other: u64|
                        old(self).users().contains_key(other) && #[trigger] old(self).users()[other].username@
                            == username@ {
                        e@ == ErrorView::UniqueKeyViolation(users_by_name(), encode_utf8(username@))
                    } else {
                        old(self).next_user_id() == u64::MAX && e@ == ErrorView::Other(
                            out_of_ids_message(),
                        )
                    }
                },
            },
    {
        if !check_lower_name(username, true) {
            return Err(Error::InvalidName(String::from_str(username)));
        }
        let reference = NamedReference::Name(String::from_str(username));
        match self.find_user(&reference) {
            Some(other) => {
                return Err(
                    Error::UniqueKeyViolation(
                        String::from_str("khonsulabs.user.by-name"),
                        copy_bytes(username.as_bytes()),
                    ),
                );
            },
            None => {},
        }
        proof {
            assert forall|other: u64| old(self).users().contains_key(other) implies old(
                self,
            ).users()[other].username@ != username@ by {
                assert(!self.names_user(reference, other));
            }
        }
        if self.next_user_id == u64::MAX {
            return Err(Error::Other(String::from_str("no id is left")));
        }
        let id = self.next_user_id;
        let user = User {
            username: String::from_str(username),
            salt: Vec::new(),
            password_hash: None,
            groups: Vec::new(),
            roles: Vec::new(),
        };
        self.users.insert(id, user);
        self.next_user_id = id + 1;
        proof {
            assert(self.users().dom() =~= old(self).users().dom().insert(id));
        }
        Ok(id)
    }

    /// Deletes the user that `user` names. Fails with `UserNotFound`, and
    /// changes nothing, if it names none.
    pub fn delete_user(&mut self, user: &NamedReference) -> (r: Result<(), Error>)
        requires
            old(self).wf(),
        ensures
            final(self).wf(),
            final(self).groups() == old(self).groups(),
            final(self).roles() == old(self).roles(),
            final(self).sessions() == old(self).sessions(),
            final(self).next_user_id() == old(self).next_user_id(),
            final(self).next_session_id() == old(self).next_session_id(),
            final(self).next_group_id() == old(self).next_group_id(),
            final(self).next_role_id() == old(self).next_role_id(),
            match r {
                Ok(_) => exists|id: u64|
                    #[trigger] old(self).names_user(*user, id) && final(self).users() == old(
                        self,
                    ).users().remove(id),
                Err(e) => e@ == ErrorView::UserNotFound && final(self).users() == old(self).users()
                    && forall|id: u64| !old(self).names_user(*user, id),
            },
    {
        match self.find_user(user) {
            Some(id) => {
                self.users.remove(&id);
                assert(old(self).names_user(*user, id));
                Ok(())
            },
            None => Err(Error::UserNotFound),
        }
    }

    /// Creates a permission group, and returns its id.
    pub fn create_permission_group(&mut self, name: String, statements: Vec<Statement>) -> (r:
        Result<u64, Error>)
        requires
            old(self).wf(),
        ensures
            final(self).wf(),
            final(self).users() == old(self).users(),
            final(self).roles() == old(self).roles(),
            final(self).sessions() == old(self).sessions(),
            final(self).next_user_id() == old(self).next_user_id(),
            final(self).next_session_id() == old(self).next_session_id(),
            final(self).next_role_id() == old(self).next_role_id(),
            match r {
                Ok(id) => id == old(self).next_group_id() && final(self).next_group_id() == id + 1
                    && final(self).groups() == old(self).groups().insert(
                    id,
                    PermissionGroup { name, statements },
                ),
                Err(e) => old(self).next_group_id() == u64::MAX && e@ == ErrorView::Other(
                    out_of_ids_message(),
                ) && final(self).groups() == old(self).groups() && final(self).next_group_id()
                    == old(self).next_group_id(),
            },
    {
        if self.next_group_id == u64::MAX {
            return Err(Error::Other(String::from_str("no id is left")));
        }
        let id = self.next_group_id;
        self.groups.insert(id, PermissionGroup { name, statements });
        self.next_group_id = id + 1;
        Ok(id)
    }

    /// Creates a role, and returns its id.
    pub fn create_role(&mut self, role: Role) -> (r: Result<u64, Error>)
        requires
            old(self).wf(),
        ensures
            final(self).wf(),
            final(self).users() == old(self).users(),
            final(self).groups() == old(self).groups(),
            final(self).sessions() == old(self).sessions(),
            final(self).next_user_id() == old(self).next_user_id(),
            final(self).next_session_id() == old(self).next_session_id(),
            final(self).next_group_id() == old(self).next_group_id(),
            match r {
                Ok(id) => id == old(self).next_role_id() && final(self).next_role_id() == id + 1
                    && final(self).roles() == old(self).roles().insert(id, role),
                Err(e) => old(self).next_role_id() == u64::MAX && e@ == ErrorView::Other(
                    out_of_ids_message(),
                ) && final(self).roles() == old(self).roles() && final(self).next_role_id() == old(
                    self,
                ).next_role_id(),
            },
    {
        if self.next_role_id == u64::MAX {
            return Err(Error::Other(String::from_str("no id is left")));
        }
        let id = self.next_role_id;
        self.roles.insert(id, role);
        self.next_role_id = id + 1;
        Ok(id)
    }

    /// Stores `hash` as the hash of the password of the user that `user`
    /// names, with the salt `salt` that it was computed with. Fails with
    /// `UserNotFound`, and changes nothing, if `user` names no user.
    pub fn set_user_password(&mut self, user: &NamedReference, salt: Vec<u8>, hash: Vec<u8>) -> (r:
        Result<(), Error>)
        requires
            old(self).wf(),
        ensures
            final(self).wf(),
            final(self).groups() == old(self).groups(),
            final(self).roles() == old(self).roles(),
            final(self).sessions() == old(self).sessions(),
            final(self).next_user_id() == old(self).next_user_id(),
            final(self).next_session_id() == old(self).next_session_id(),
            final(self).next_group_id() == old(self).next_group_id(),
            final(self).next_role_id() == old(self).next_role_id(),
            match r {
                Ok(_) => exists|id: u64|
                    {
                        &&& #[trigger] old(self).names_user(*user, id)
                        &&& final(self).users() == old(self).users().insert(
                            id,
                            User { salt, password_hash: Some(hash), ..old(self).users()[id] },
                        )
                    },
                Err(e) => e@ == ErrorView::UserNotFound && final(self).users() == old(self).users()
                    && forall|id: u64| !old(self).names_user(*user, id),
            },
    {
        let id = match self.find_user(user) {
            Some(id) => id,
            None => { return Err(Error::UserNotFound); },
        };
        match self.users.get_mut(&id) {
            Some(found) => {
                found.salt = salt;
                found.password_hash = Some(hash);
            },
            None => {},
        }
        proof {
            assert(old(self).names_user(*user, id));
            let changed = User { salt, password_hash: Some(hash), ..old(self).users()[id] };
            assert(self.users@[id] == changed);
            assert forall|a: u64, b: u64|
                #[trigger] self.users@.contains_key(a) && #[trigger] self.users@.contains_key(b)
                    && a != b implies self.users@[a].username@ != self.users@[b].username@ by {
                assert(old(self).users@.contains_key(a));
                assert(old(self).users@.contains_key(b));
            }
        }
        Ok(())
    }

    /// The salt that the password of the user that `user` names was hashed
    /// with. Fails with `UserNotFound` if `user` names no user.
    pub fn password_salt(&self, user: &NamedReference) -> (r: Result<Vec<u8>, Error>)
        requires
            self.wf(),
        ensures
            match r {
                Ok(salt) => exists|id: u64|
                    #[trigger] self.names_user(*user, id) && salt@ == self.users()[id].salt@,
                Err(e) => e@ == ErrorView::UserNotFound && forall|id: u64|
                    !self.names_user(*user, id),
            },
    {
        let id = match self.find_user(user) {
            Some(id) => id,
            None => { return Err(Error::UserNotFound); },
        };
        match self.users.get(&id) {
            Some(found) => {
                assert(self.names_user(*user, id));
                Ok(copy_bytes(found.salt.as_slice()))
            },
            None => Err(Error::UserNotFound),
        }
    }

    /// Adds to `statements` the permissions of the groups with the ids
    /// `ids`.
    fn collect_groups(&self, ids: &Vec<u64>, statements: &mut Vec<Statement>)
        requires
            self.wf(),
        ensures
            forall|action: Seq<char>, resource: Seq<char>|
                #[trigger] allows_any(final(statements)@, action, resource) <==> (allows_any(
                    old(statements)@,
                    action,
                    resource,
                ) || self.group_grants(ids@, action, resource)),
    {
        let mut i: usize = 0;
        while i < ids.len()
            invariant
                self.wf(),
                i <= ids@.len(),
                forall|action: Seq<char>, resource: Seq<char>|
                    #[trigger] allows_any(statements@, action, resource) <==> (allows_any(
                        old(statements)@,
                        action,
                        resource,
                    ) || self.group_grants(ids@.take(i as int), action, resource)),
            decreases ids@.len() - i,
        {
            let ghost before = statements@;
            let ghost seen = ids@.take(i as int);
            match self.groups.get(&ids[i]) {
                Some(group) => {
                    append_statements(statements, &group.statements);
                },
                None => {},
            }
            proof {
                let grown = ids@.take(i + 1);
                assert forall|action: Seq<char>, resource: Seq<char>|
                    #[trigger] allows_any(statements@, action, resource) <==> (allows_any(
                        old(statements)@,
                        action,
                        resource,
                    ) || self.group_grants(grown, action, resource)) by {
                    let here = self.groups().contains_key(ids@[i as int]) && allows_any(
                        self.groups()[ids@[i as int]].statements@,
                        action,
                        resource,
                    );
                    assert(allows_any(statements@, action, resource) <==> (allows_any(
                        before,
                        action,
                        resource,
                    ) || here));
                    if self.group_grants(seen, action, resource) {
                        let a = choose|a: int|
                            0 <= a < seen.len() && self.groups().contains_key(#[trigger] seen[a])
                                && allows_any(
                                self.groups()[seen[a]].statements@,
                                action,
                                resource,
                            );
                        assert(grown[a] == seen[a]);
                    }
                    if here {
                        assert(grown[i as int] == ids@[i as int]);
                    }
                    if self.group_grants(grown, action, resource) {
                        let a = choose|a: int|
                            0 <= a < grown.len() && self.groups().contains_key(#[trigger] grown[a])
                                && allows_any(
                                self.groups()[grown[a]].statements@,
                                action,
                                resource,
                            );
                        if a < i {
                            assert(seen[a] == grown[a]);
                        }
                    }
                }
            }
            i += 1;
        }
        assert(ids@.take(ids@.len() as int) =~= ids@);
    }

    /// Adds to `statements` the permissions of the groups of the roles with
    /// the ids `ids`.
    fn collect_roles(&self, ids: &Vec<u64>, statements: &mut Vec<Statement>)
        requires
            self.wf(),
        ensures
            forall|action: Seq<char>, resource: Seq<char>|
                #[trigger] allows_any(final(statements)@, action, resource) <==> (allows_any(
                    old(statements)@,
                    action,
                    resource,
                ) || self.role_grants(ids@, action, resource)),
    {
        let mut i: usize = 0;
        while i < ids.len()
            invariant
                self.wf(),
                i <= ids@.len(),
                forall|action: Seq<char>, resource: Seq<char>|
                    #[trigger] allows_any(statements@, action, resource) <==> (allows_any(
                        old(statements)@,
                        action,
                        resource,
                    ) || self.role_grants(ids@.take(i as int), action, resource)),
            decreases ids@.len() - i,
        {
            let ghost before = statements@;
            let ghost seen = ids@.take(i as int);
            match self.roles.get(&ids[i]) {
                Some(role) => {
                    self.collect_groups(&role.groups, statements);
                },
                None => {},
            }
            proof {
                let grown = ids@.take(i + 1);
                assert forall|action: Seq<char>, resource: Seq<char>|
                    #[trigger] allows_any(statements@, action, resource) <==> (allows_any(
                        old(statements)@,
                        action,
                        resource,
                    ) || self.role_grants(grown, action, resource)) by {
                    let here = self.roles().contains_key(ids@[i as int]) && self.group_grants(
                        self.roles()[ids@[i as int]].groups@,
                        action,
                        resource,
                    );
                    assert(allows_any(statements@, action, resource) <==> (allows_any(
                        before,
                        action,
                        resource,
                    ) || here));
                    if self.role_grants(seen, action, resource) {
                        let a = choose|a: int|
                            0 <= a < seen.len() && self.roles().contains_key(#[trigger] seen[a])
                                && self.group_grants(
                                self.roles()[seen[a]].groups@,
                                action,
                                resource,
                            );
                        assert(grown[a] == seen[a]);
                    }
                    if here {
                        assert(grown[i as int] == ids@[i as int]);
                    }
                    if self.role_grants(grown, action, resource) {
                        let a = choose|a: int|
                            0 <= a < grown.len() && self.roles().contains_key(#[trigger] grown[a])
                                && self.group_grants(
                                self.roles()[grown[a]].groups@,
                                action,
                                resource,
                            );
                        if a < i {
                            assert(seen[a] == grown[a]);
                        }
                    }
                }
            }
            i += 1;
        }
        assert(ids@.take(ids@.len() as int) =~= ids@);
    }

    /// Opens a session for `identity` with the permissions `permissions`.
    fn open_session(&mut self, identity: Identity, permissions: Vec<Statement>) -> (r: Result<
        Session,
        Error,
    >)
        requires
            old(self).wf(),
        ensures
            final(self).wf(),
            final(self).users() == old(self).users(),
            final(self).groups() == old(self).groups(),
            final(self).roles() == old(self).roles(),
            final(self).next_user_id() == old(self).next_user_id(),
            final(self).next_group_id() == old(self).next_group_id(),
            final(self).next_role_id() == old(self).next_role_id(),
            match r {
                Ok(session) => {
                    &&& session.id == Some(SessionId(old(self).next_session_id()))
                    &&& session.identity == Some(identity)
                    &&& forall|action: Seq<char>, resource: Seq<char>|
                        #[trigger] session.spec_allowed_to(action, resource) == allows_any(
                            permissions@,
                            action,
                            resource,
                        )
                    &&& final(self).next_session_id() == old(self).next_session_id() + 1
                    &&& final(self).sessions().dom() == old(self).sessions().dom().insert(
                        old(self).next_session_id(),
                    )
                    &&& final(self).sessions()[old(self).next_session_id()] == (Session {
                        id: Some(SessionId(old(self).next_session_id())),
                        identity: Some(identity),
                        permissions,
                    })
                    &&& same_session(final(self).sessions()[old(self).next_session_id()], session)
                    &&& forall|other: u64|
                        old(self).sessions().contains_key(other) ==> #[trigger] final(self).sessions()[other] == old(self).sessions()[other]
                },
                Err(e) => {
                    &&& old(self).next_session_id() == u64::MAX
                    &&& e@ == ErrorView::Other(out_of_ids_message())
                    &&& final(self).sessions() == old(self).sessions()
                    &&& final(self).next_session_id() == old(self).next_session_id()
                },
            },
    {
        if self.next_session_id == u64::MAX {
            return Err(Error::Other(String::from_str("no id is left")));
        }
        let id = self.next_session_id;
        let mut copy: Vec<Statement> = Vec::new();
        append_statements(&mut copy, &permissions);
        let session = Session { id: Some(SessionId(id)), identity: Some(identity), permissions: copy };
        proof {
            assert forall|action: Seq<char>, resource: Seq<char>|
                #[trigger] session.spec_allowed_to(action, resource) == allows_any(
                    permissions@,
                    action,
                    resource,
                ) by {
                assert(session.spec_allowed_to(action, resource) == allows_any(
                    session.permissions@,
                    action,
                    resource,
                ));
                assert(!allows_any(Seq::<Statement>::empty(), action, resource));
            }
        }
        self.sessions.insert(
            id,
            Session { id: Some(SessionId(id)), identity: Some(identity), permissions },
        );
        self.next_session_id = id + 1;
        proof {
            assert(self.sessions().dom() =~= old(self).sessions().dom().insert(id));
            let kept = self.sessions()[id];
            assert forall|action: Seq<char>, resource: Seq<char>|
                #[trigger] kept.spec_allowed_to(action, resource) == session.spec_allowed_to(
                    action,
                    resource,
                ) by {
                assert(kept.spec_allowed_to(action, resource) == allows_any(
                    kept.permissions@,
                    action,
                    resource,
                ));
            }
        }
        Ok(session)
    }

    /// Authenticates as the user that `user` names, with the hash `hash`
    /// of the password that was offered, and opens a session for the user
    /// with the permissions of their groups and roles.
    ///
    /// Fails with `InvalidCredentials`, and changes nothing, if `user`
    /// names no user, if the user has no password, or if `hash` is not the
    /// hash that is stored for the user. Otherwise it fails only where
    /// every session id is used up.
    pub fn authenticate(&mut self, user: &NamedReference, hash: &[u8]) -> (r: Result<
        Session,
        Error,
    >)
        requires
            old(self).wf(),
        ensures
            final(self).wf(),
            final(self).users() == old(self).users(),
            final(self).groups() == old(self).groups(),
            final(self).roles() == old(self).roles(),
            final(self).next_user_id() == old(self).next_user_id(),
            final(self).next_group_id() == old(self).next_group_id(),
            final(self).next_role_id() == old(self).next_role_id(),
            match r {
                Ok(session) => exists|id: u64|
                    {
                        &&& #[trigger] old(self).names_user(*user, id)
                        &&& old(self).users()[id].password_hash matches Some(stored) && stored@
                            == hash@
                        &&& old(self).next_session_id() < u64::MAX
                        &&& session.id == Some(SessionId(old(self).next_session_id()))
                        &&& session.identity == Some(Identity::User(id))
                        &&& forall|action: Seq<char>, resource: Seq<char>|
                            #[trigger] session.spec_allowed_to(action, resource) == old(
                                self,
                            ).user_grants(old(self).users()[id], action, resource)
                        &&& final(self).next_session_id() == old(self).next_session_id() + 1
                        &&& final(self).sessions().dom() == old(self).sessions().dom().insert(
                            old(self).next_session_id(),
                        )
                        &&& same_session(
                            final(self).sessions()[old(self).next_session_id()],
                            session,
                        )
                        &&& forall|other: u64|
                            old(self).sessions().contains_key(other) ==> #[trigger] final(self).sessions()[other] == old(self).sessions()[other]
                    },
                Err(e) => {
                    &&& final(self).sessions() == old(self).sessions()
                    &&& final(self).next_session_id() == old(self).next_session_id()
                    &&& if forall|id: u64|
                        old(self).names_user(*user, id) ==> !(old(
                            self,
                        ).users()[id].password_hash matches Some(stored) && stored@ == hash@) {
                        e@ == ErrorView::InvalidCredentials
                    } else {
                        old(self).next_session_id() == u64::MAX && e@ == ErrorView::Other(
                            out_of_ids_message(),
                        )
                    }
                },
            },
    {
        let id = match self.find_user(user) {
            Some(id) => id,
            None => { return Err(Error::InvalidCredentials); },
        };
        proof {
            assert(self.names_user(*user, id));
            assert forall|other: u64| self.names_user(*user, other) implies other == id by {
                match *user {
                    NamedReference::Id(_) => {},
                    NamedReference::Name(_) => {
                        if other != id {
                            assert(self.users@.contains_key(other));
                            assert(self.users@.contains_key(id));
                        }
                    },
                }
            }
        }
        let mut permissions: Vec<Statement> = Vec::new();
        match self.users.get(&id) {
            Some(found) => {
                let matches = match &found.password_hash {
                    Some(stored) => bytes_equal(stored.as_slice(), hash),
                    None => false,
                };
                if !matches {
                    return Err(Error::InvalidCredentials);
                }
                self.collect_groups(&found.groups, &mut permissions);
                self.collect_roles(&found.roles, &mut permissions);
                proof {
                    assert forall|action: Seq<char>, resource: Seq<char>|
                        #[trigger] allows_any(permissions@, action, resource) == self.user_grants(
                            *found,
                            action,
                            resource,
                        ) by {
                        assert(!allows_any(Seq::<Statement>::empty(), action, resource));
                    }
                }
            },
            None => { return Err(Error::InvalidCredentials); },
        }
        let r = self.open_session(Identity::User(id), permissions);
        proof {
            if r is Ok {
                assert(old(self).names_user(*user, id));
            }
        }
        r
    }

    /// Opens a session for `identity`, on behalf of the session `current`,
    /// with the permissions of the groups and roles of the user, or of the
    /// groups of the role.
    ///
    /// Fails, and changes nothing, with `PermissionDenied` if `current` may
    /// not perform `AssumeIdentity` on the identity, and with
    /// `UserNotFound` or `RoleNotFound` if there is no such user or role.
    /// Otherwise it fails only where every session id is used up.
    pub fn assume_identity(&mut self, current: &Session, identity: Identity) -> (r: Result<
        Session,
        Error,
    >)
        requires
            old(self).wf(),
        ensures
            final(self).wf(),
            final(self).users() == old(self).users(),
            final(self).groups() == old(self).groups(),
            final(self).roles() == old(self).roles(),
            final(self).next_user_id() == old(self).next_user_id(),
            final(self).next_group_id() == old(self).next_group_id(),
            final(self).next_role_id() == old(self).next_role_id(),
            match r {
                Ok(session) => {
                    &&& current.spec_allowed_to(assume_identity_action(), identity_resource(identity))
                    &&& old(self).next_session_id() < u64::MAX
                    &&& final(self).next_session_id() == old(self).next_session_id() + 1
                    &&& same_session(final(self).sessions()[old(self).next_session_id()], session)
                    &&& forall|other: u64|
                        old(self).sessions().contains_key(other) ==> #[trigger] final(self).sessions()[other] == old(self).sessions()[other]
                    &&& session.id == Some(SessionId(old(self).next_session_id()))
                    &&& session.identity == Some(identity)
                    &&& forall|action: Seq<char>, resource: Seq<char>|
                        #[trigger] session.spec_allowed_to(action, resource) == (match identity {
                            Identity::User(id) => old(self).user_grants(
                                old(self).users()[id],
                                action,
                                resource,
                            ),
                            Identity::Role(id) => old(self).group_grants(
                                old(self).roles()[id].groups@,
                                action,
                                resource,
                            ),
                        })
                    &&& match identity {
                        Identity::User(id) => old(self).users().contains_key(id),
                        Identity::Role(id) => old(self).roles().contains_key(id),
                    }
                    &&& final(self).sessions().dom() == old(self).sessions().dom().insert(
                        old(self).next_session_id(),
                    )
                },
                Err(e) => {
                    &&& final(self).sessions() == old(self).sessions()
                    &&& final(self).next_session_id() == old(self).next_session_id()
                    &&& if !current.spec_allowed_to(
                        assume_identity_action(),
                        identity_resource(identity),
                    ) {
                        e@ == ErrorView::PermissionDenied(
                            assume_identity_action(),
                            identity_resource(identity),
                        )
                    } else {
                        match identity {
                            Identity::User(id) => if old(self).users().contains_key(id) {
                                old(self).next_session_id() == u64::MAX && e@
                                    == ErrorView::Other(out_of_ids_message())
                            } else {
                                e@ == ErrorView::UserNotFound
                            },
                            Identity::Role(id) => if old(self).roles().contains_key(id) {
                                old(self).next_session_id() == u64::MAX && e@
                                    == ErrorView::Other(out_of_ids_message())
                            } else {
                                e@ == ErrorView::RoleNotFound
                            },
                        }
                    }
                },
            },
    {
        let mut resource = match identity {
            Identity::User(_) => String::from_str("user."),
            Identity::Role(_) => String::from_str("role."),
        };
        let digits = match identity {
            Identity::User(id) => to_decimal(id),
            Identity::Role(id) => to_decimal(id),
        };
        resource.append(digits.as_str());
        if !current.allowed_to("AssumeIdentity", resource.as_str()) {
            return Err(Error::PermissionDenied(String::from_str("AssumeIdentity"), resource));
        }
        let mut permissions: Vec<Statement> = Vec::new();
        match identity {
            Identity::User(id) => match self.users.get(&id) {
                Some(found) => {
                    self.collect_groups(&found.groups, &mut permissions);
                    self.collect_roles(&found.roles, &mut permissions);
                    proof {
                        assert forall|action: Seq<char>, resource: Seq<char>|
                            #[trigger] allows_any(permissions@, action, resource)
                                == self.user_grants(*found, action, resource) by {
                            assert(!allows_any(Seq::<Statement>::empty(), action, resource));
                        }
                    }
                },
                None => { return Err(Error::UserNotFound); },
            },
            Identity::Role(id) => match self.roles.get(&id) {
                Some(found) => {
                    self.collect_groups(&found.groups, &mut permissions);
                    proof {
                        assert forall|action: Seq<char>, resource: Seq<char>|
                            #[trigger] allows_any(permissions@, action, resource)
                                == self.group_grants(found.groups@, action, resource) by {
                            assert(!allows_any(Seq::<Statement>::empty(), action, resource));
                        }
                    }
                },
                None => { return Err(Error::RoleNotFound); },
            },
        }
        self.open_session(identity, permissions)
    }

    /// Makes the user that `user` names a member of the permission group
    /// that `group` names, or ends the membership. Fails, and changes
    /// nothing, with `UserNotFound` if `user` names no user, and with
    /// `PermissionGroupNotFound` if `group` names no group.
    pub fn alter_user_permission_group_membership(
        &mut self,
        user: &NamedReference,
        group: &NamedReference,
        should_be_member: bool,
    ) -> (r: Result<(), Error>)
        requires
            old(self).wf(),
        ensures
            final(self).wf(),
            final(self).groups() == old(self).groups(),
            final(self).roles() == old(self).roles(),
            final(self).sessions() == old(self).sessions(),
            final(self).next_user_id() == old(self).next_user_id(),
            final(self).next_session_id() == old(self).next_session_id(),
            final(self).next_group_id() == old(self).next_group_id(),
            final(self).next_role_id() == old(self).next_role_id(),
            final(self).users().dom() == old(self).users().dom(),
            match r {
                Ok(_) => exists|user_id: u64, group_id: u64|
                    {
                        &&& #[trigger] old(self).names_user(*user, user_id)
                        &&& #[trigger] old(self).names_group(*group, group_id)
                        &&& final(self).users()[user_id].groups@.to_set() == (if should_be_member {
                            old(self).users()[user_id].groups@.to_set().insert(group_id)
                        } else {
                            old(self).users()[user_id].groups@.to_set().remove(group_id)
                        })
                        &&& final(self).users()[user_id].username == old(
                            self,
                        ).users()[user_id].username
                        &&& final(self).users()[user_id].salt == old(self).users()[user_id].salt
                        &&& final(self).users()[user_id].password_hash == old(
                            self,
                        ).users()[user_id].password_hash
                        &&& final(self).users()[user_id].roles == old(self).users()[user_id].roles
                        &&& forall|other: u64|
                            old(self).users().contains_key(other) && other != user_id
                                ==> #[trigger] final(self).users()[other] == old(
                                self,
                            ).users()[other]
                    },
                Err(e) => final(self).users() == old(self).users() && if forall|id: u64|
                    !old(self).names_user(*user, id) {
                    e@ == ErrorView::UserNotFound
                } else {
                    e@ == ErrorView::PermissionGroupNotFound && forall|id: u64|
                        !old(self).names_group(*group, id)
                },
            },
    {
        let user_id = match self.find_user(user) {
            Some(id) => id,
            None => { return Err(Error::UserNotFound); },
        };
        let group_id = match self.find_group(group) {
            Some(id) => id,
            None => {
                assert(self.names_user(*user, user_id));
                return Err(Error::PermissionGroupNotFound);
            },
        };
        match self.users.get_mut(&user_id) {
            Some(found) => {
                if should_be_member {
                    insert_id(&mut found.groups, group_id);
                } else {
                    remove_id(&mut found.groups, group_id);
                }
            },
            None => {},
        }
        proof {
            assert(old(self).names_user(*user, user_id));
            assert(old(self).names_group(*group, group_id));
            assert(self.users().dom() =~= old(self).users().dom());
            assert forall|a: u64, b: u64|
                #[trigger] self.users@.contains_key(a) && #[trigger] self.users@.contains_key(b)
                    && a != b implies self.users@[a].username@ != self.users@[b].username@ by {
                assert(old(self).users@.contains_key(a));
                assert(old(self).users@.contains_key(b));
            }
        }
        Ok(())
    }

    /// Gives the user that `user` names the role that `role` names, or
    /// takes it away. Fails, and changes nothing, with `UserNotFound` if
    /// `user` names no user, and with `RoleNotFound` if `role` names no
    /// role.
    pub fn alter_user_role_membership(
        &mut self,
        user: &NamedReference,
        role: &NamedReference,
        should_be_member: bool,
    ) -> (r: Result<(), Error>)
        requires
            old(self).wf(),
        ensures
            final(self).wf(),
            final(self).groups() == old(self).groups(),
            final(self).roles() == old(self).roles(),
            final(self).sessions() == old(self).sessions(),
            final(self).next_user_id() == old(self).next_user_id(),
            final(self).next_session_id() == old(self).next_session_id(),
            final(self).next_group_id() == old(self).next_group_id(),
            final(self).next_role_id() == old(self).next_role_id(),
            final(self).users().dom() == old(self).users().dom(),
            match r {
                Ok(_) => exists|user_id: u64, role_id: u64|
                    {
                        &&& #[trigger] old(self).names_user(*user, user_id)
                        &&& #[trigger] old(self).names_role(*role, role_id)
                        &&& final(self).users()[user_id].roles@.to_set() == (if should_be_member {
                            old(self).users()[user_id].roles@.to_set().insert(role_id)
                        } else {
                            old(self).users()[user_id].roles@.to_set().remove(role_id)
                        })
                        &&& final(self).users()[user_id].username == old(
                            self,
                        ).users()[user_id].username
                        &&& final(self).users()[user_id].salt == old(self).users()[user_id].salt
                        &&& final(self).users()[user_id].password_hash == old(
                            self,
                        ).users()[user_id].password_hash
                        &&& final(self).users()[user_id].groups == old(self).users()[user_id].groups
                        &&& forall|other: u64|
                            old(self).users().contains_key(other) && other != user_id
                                ==> #[trigger] final(self).users()[other] == old(
                                self,
                            ).users()[other]
                    },
                Err(e) => final(self).users() == old(self).users() && if forall|id: u64|
                    !old(self).names_user(*user, id) {
                    e@ == ErrorView::UserNotFound
                } else {
                    e@ == ErrorView::RoleNotFound && forall|id: u64|
                        !old(self).names_role(*role, id)
                },
            },
    {
        let user_id = match self.find_user(user) {
            Some(id) => id,
            None => { return Err(Error::UserNotFound); },
        };
        let role_id = match self.find_role(role) {
            Some(id) => id,
            None => {
                assert(self.names_user(*user, user_id));
                return Err(Error::RoleNotFound);
            },
        };
        match self.users.get_mut(&user_id) {
            Some(found) => {
                if should_be_member {
                    insert_id(&mut found.roles, role_id);
                } else {
                    remove_id(&mut found.roles, role_id);
                }
            },
            None => {},
        }
        proof {
            assert(old(self).names_user(*user, user_id));
            assert(old(self).names_role(*role, role_id));
            assert(self.users().dom() =~= old(self).users().dom());
            assert forall|a: u64, b: u64|
                #[trigger] self.users@.contains_key(a) && #[trigger] self.users@.contains_key(b)
                    && a != b implies self.users@[a].username@ != self.users@[b].username@ by {
                assert(old(self).users@.contains_key(a));
                assert(old(self).users@.contains_key(b));
            }
        }
        Ok(())
    }

    /// The session with the id `id`. Fails with `SessionExpired` if there
    /// is none.
    pub fn session(&self, id: SessionId) -> (r: Result<&Session, Error>)
        requires
            self.wf(),
        ensures
            match r {
                Ok(session) => self.sessions().contains_key(id.0) && *session
                    == self.sessions()[id.0],
                Err(e) => !self.sessions().contains_key(id.0) && e@ == ErrorView::SessionExpired,
            },
    {
        match self.sessions.get(&id.0) {
            Some(session) => Ok(session),
            None => Err(Error::SessionExpired),
        }
    }

    /// Ends the session with the id `id`. Fails with `SessionExpired`, and
    /// changes nothing, if there is none.
    pub fn end_session(&mut self, id: SessionId) -> (r: Result<(), Error>)
        requires
            old(self).wf(),
        ensures
            final(self).wf(),
            final(self).users() == old(self).users(),
            final(self).groups() == old(self).groups(),
            final(self).roles() == old(self).roles(),
            final(self).next_user_id() == old(self).next_user_id(),
            final(self).next_session_id() == old(self).next_session_id(),
            final(self).next_group_id() == old(self).next_group_id(),
            final(self).next_role_id() == old(self).next_role_id(),
            match r {
                Ok(_) => old(self).sessions().contains_key(id.0) && final(self).sessions() == old(
                    self,
                ).sessions().remove(id.0),
                Err(e) => !old(self).sessions().contains_key(id.0) && final(self).sessions()
                    == old(self).sessions() && e@ == ErrorView::SessionExpired,
            },
    {
        match self.sessions.remove(&id.0) {
            Some(_) => Ok(()),
            None => Err(Error::SessionExpired),
        }
    }
}

} // verus!
