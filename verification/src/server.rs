//! A server: databases of one schema by their names, and the session
//! manager.

use crate::assoc::AssocList;
use crate::connection::{self, Session, SessionId};
use crate::networking::RequestKind;
use crate::pubsub::owned_by;
use crate::database::Database;
use crate::error::{Error, ErrorView};
use crate::schema::{check_lower_name, valid_lower_name, Schema, SchemaName, SchematicView};
use crate::session::SessionManager;
use vstd::prelude::*;
use vstd::string::StringExecFns;

verus! {

/// Whether the session may make the request `kind` of the database
/// `database`, or of the server where the request names no database.
pub open spec fn permitted(session: Session, kind: RequestKind, database: Option<Seq<char>>) -> bool {
    session.spec_allowed_to(kind.spec_name(), request_resource(database))
}

/// The error of a session that may not make the request `kind`.
pub open spec fn denied(kind: RequestKind, database: Option<Seq<char>>) -> ErrorView {
    ErrorView::PermissionDenied(kind.spec_name(), request_resource(database))
}

/// Checks that the session may make the request `kind` of the database
/// `database`, or of the server where the request names no database.
pub fn permit(session: &Session, kind: RequestKind, database: Option<&str>) -> (r: Result<
    (),
    Error,
>)
    ensures
        match r {
            Ok(_) => permitted(
                *session,
                kind,
                match database {
                    Some(name) => Some(name@),
                    None => None,
                },
            ),
            Err(e) => {
                let resource = match database {
                    Some(name) => Some(name@),
                    None => None,
                };
                !permitted(*session, kind, resource) && e@ == denied(kind, resource)
            },
        },
{
    let name = kind.name();
    authorize(session, name.as_str(), database)
}

/// A server of databases of the schema `S`.
pub struct Server<S: Schema> {
    databases: AssocList<String, Database<S>>,
    sessions: SessionManager,
}

impl<S: Schema> Server<S> {
    /// The databases by their names.
    pub closed spec fn databases(&self) -> Map<Seq<char>, Database<S>> {
        self.databases@
    }

    /// The session manager.
    pub closed spec fn manager(&self) -> SessionManager {
        self.sessions
    }

    /// The names of the databases, in the order in which they came into
    /// the server.
    pub closed spec fn names(&self) -> Seq<Seq<char>> {
        self.databases.keys()
    }

    /// The names are the names of the databases, each once.
    pub proof fn lemma_names(&self)
        requires
            self.wf(),
        ensures
            self.names().no_duplicates(),
            self.names().len() == self.databases().dom().len(),
            forall|name: Seq<char>|
                self.databases().contains_key(name) <==> self.names().contains(name),
    {
        self.databases.lemma_keys();
    }

    /// The invariant: every database is well formed and stands under its
    /// own name, and the session manager is well formed.
    pub closed spec fn wf(&self) -> bool {
        &&& self.databases.wf()
        &&& self.sessions.wf()
        &&& forall|name: Seq<char>| #[trigger]
            self.databases@.contains_key(name) ==> self.databases@[name].wf()
                && self.databases@[name].name@ == name
    }

    /// A server without databases and without users.
    pub fn new() -> (server: Self)
        ensures
            server.wf(),
            server.databases() == Map::<Seq<char>, Database<S>>::empty(),
            server.names() == Seq::<Seq<char>>::empty(),
    {
        Server { databases: AssocList::new(), sessions: SessionManager::new() }
    }

    /// The session manager.
    pub fn sessions(&self) -> (manager: &SessionManager)
        requires
            self.wf(),
        ensures
            *manager == self.manager(),
            manager.wf(),
    {
        &self.sessions
    }

    /// The session manager, to be changed in place, for a session that may
    /// make the request `kind` of the server. Fails with `PermissionDenied`
    /// for a session that may not.
    pub fn sessions_mut(&mut self, session: &Session, kind: RequestKind) -> (r: Result<
        &mut SessionManager,
        Error,
    >)
        requires
            old(self).wf(),
        ensures
            final(self).databases() == old(self).databases(),
            final(self).names() == old(self).names(),
            match r {
                Ok(manager) => {
                    &&& permitted(*session, kind, None)
                    &&& *manager == old(self).manager()
                    &&& manager.wf()
                    &&& final(self).manager() == *final(manager)
                    &&& final(manager).wf() ==> final(self).wf()
                },
                Err(e) => {
                    &&& !permitted(*session, kind, None)
                    &&& e@ == denied(kind, None)
                    &&& final(self).manager() == old(self).manager()
                    &&& final(self).wf()
                },
            },
    {
        match permit(session, kind, None) {
            Ok(_) => Ok(&mut self.sessions),
            Err(e) => Err(e),
        }
    }

    /// Whether `schema` is the schema of the databases of this server.
    pub open spec fn schema_is_registered(schema: (Seq<char>, Seq<char>)) -> bool {
        schema == S::spec_schema_name() && crate::schema::valid_name(schema.0)
            && crate::schema::valid_name(schema.1)
    }

    /// The schemas that databases can be created with: the schema `S`, if
    /// its name is a name. Fails with `PermissionDenied` for a session that
    /// may not make the request `ListAvailableSchemas` of the server.
    pub fn list_available_schemas(&self, session: &Session) -> (r: Result<Vec<SchemaName>, Error>)
        ensures
            match r {
                Ok(schemas) => {
                    &&& permitted(*session, RequestKind::ListAvailableSchemas, None)
                    &&& schemas@.len() == (if Self::schema_is_registered(S::spec_schema_name()) {
                        1int
                    } else {
                        0int
                    })
                    &&& forall|i: int|
                        0 <= i < schemas@.len() ==> (#[trigger] schemas@[i])@
                            == S::spec_schema_name()
                },
                Err(e) => !permitted(*session, RequestKind::ListAvailableSchemas, None) && e@
                    == denied(RequestKind::ListAvailableSchemas, None),
            },
    {
        match permit(session, RequestKind::ListAvailableSchemas, None) {
            Ok(_) => {},
            Err(e) => { return Err(e); },
        }
        let mut schemas: Vec<SchemaName> = Vec::new();
        match S::schema_name() {
            Ok(name) => {
                schemas.push(name);
            },
            Err(_) => {},
        }
        Ok(schemas)
    }

    /// Creates an empty database with the name `name`.
    ///
    /// Fails, and changes nothing, with `PermissionDenied` for a session
    /// that may not make the request `CreateDatabase` of the server; with
    /// `InvalidDatabaseName` if `name` is no name of a database; with
    /// `SchemaNotRegistered` if `schema` is not
    /// the schema of this server; with `DatabaseNameAlreadyTaken` if a
    /// database has the name, unless `only_if_needed`, with which nothing
    /// is done then; and with the error of the schema where its definition
    /// fails.
    pub fn create_database(
        &mut self,
        session: &Session,
        name: &str,
        schema: &SchemaName,
        only_if_needed: bool,
    ) -> (r: Result<(), Error>)
        requires
            old(self).wf(),
        ensures
            final(self).wf(),
            final(self).manager() == old(self).manager(),
            !permitted(*session, RequestKind::CreateDatabase, None) ==> (r matches Err(e) && e@
                == denied(RequestKind::CreateDatabase, None)),
            match r {
                Ok(_) => {
                    &&& permitted(*session, RequestKind::CreateDatabase, None)
                    &&& valid_lower_name(name@, false)
                    &&& Self::schema_is_registered(schema@)
                    &&& if old(self).databases().contains_key(name@) {
                        only_if_needed && final(self).databases() == old(self).databases()
                            && final(self).names() == old(self).names()
                    } else {
                        &&& final(self).databases().dom() == old(self).databases().dom().insert(
                            name@,
                        )
                        &&& final(self).names() == old(self).names().push(name@)
                        &&& forall|other: Seq<char>|
                            old(self).databases().contains_key(other) ==> #[trigger] final(self).databases()[other] == old(self).databases()[other]
                        &&& final(self).databases()[name@].storage@.trees == Map::<
                            (Seq<char>, Seq<u8>),
                            Seq<u8>,
                        >::empty()
                        &&& final(self).databases()[name@].documents.docs() == Map::<
                            crate::database::views::DocumentKey,
                            crate::document::DocumentView,
                        >::empty()
                        &&& final(self).databases()[name@].documents.log() == Seq::<
                            crate::transaction::ExecutedView,
                        >::empty()
                        &&& S::spec_define_collections(SchematicView::empty()).error is None
                        &&& final(self).databases()[name@].documents.schematic()@
                            == S::spec_define_collections(SchematicView::empty()).schema
                    }
                },
                Err(e) => {
                    &&& final(self).databases() == old(self).databases()
                    &&& final(self).names() == old(self).names()
                    &&& permitted(*session, RequestKind::CreateDatabase, None) && !valid_lower_name(
                        name@,
                        false,
                    ) ==> e@ == ErrorView::InvalidDatabaseName(name@)
                    &&& permitted(*session, RequestKind::CreateDatabase, None) && valid_lower_name(
                        name@,
                        false,
                    ) && !Self::schema_is_registered(schema@) ==> e@
                        == ErrorView::SchemaNotRegistered(schema.spec_to_string())
                    &&& permitted(*session, RequestKind::CreateDatabase, None) && valid_lower_name(
                        name@,
                        false,
                    ) && Self::schema_is_registered(schema@) && old(self).databases().contains_key(
                        name@,
                    ) ==> !only_if_needed && e@ == ErrorView::DatabaseNameAlreadyTaken(name@)
                    &&& permitted(*session, RequestKind::CreateDatabase, None) && valid_lower_name(
                        name@,
                        false,
                    ) && Self::schema_is_registered(schema@) && !old(self).databases().contains_key(
                        name@,
                    ) ==> S::spec_define_collections(SchematicView::empty()).error == Some(e@)
                },
            },
    {
        match permit(session, RequestKind::CreateDatabase, None) {
            Ok(_) => {},
            Err(e) => { return Err(e); },
        }
        if !check_lower_name(name, false) {
            return Err(Error::InvalidDatabaseName(String::from_str(name)));
        }
        let registered = match S::schema_name() {
            Ok(own) => crate::assoc::KeyEq::key_eq(&own, schema),
            Err(_) => false,
        };
        if !registered {
            return Err(Error::SchemaNotRegistered(schema.to_string()));
        }
        let key = String::from_str(name);
        if self.databases.contains_key(&key) {
            if only_if_needed {
                return Ok(());
            }
            return Err(Error::DatabaseNameAlreadyTaken(key));
        }
        let database = match Database::new(String::from_str(name)) {
            Ok(database) => database,
            Err(e) => { return Err(e); },
        };
        self.databases.insert(key, database);
        proof {
            assert(self.databases().dom() =~= old(self).databases().dom().insert(name@));
        }
        Ok(())
    }

    /// Deletes the database with the name `name`. Fails, and changes
    /// nothing, with `PermissionDenied` for a session that may not make the
    /// request `DeleteDatabase` of the server, and with `DatabaseNotFound`
    /// if there is no such database.
    pub fn delete_database(&mut self, session: &Session, name: &str) -> (r: Result<(), Error>)
        requires
            old(self).wf(),
        ensures
            final(self).wf(),
            final(self).manager() == old(self).manager(),
            match r {
                Ok(_) => permitted(*session, RequestKind::DeleteDatabase, None) && old(
                    self,
                ).databases().contains_key(name@) && final(self).databases() == old(
                    self,
                ).databases().remove(name@) && final(self).names() == old(self).names().remove(
                    old(self).names().index_of(name@),
                ),
                Err(e) => final(self).databases() == old(self).databases() && final(self).names()
                    == old(self).names() && if !permitted(
                    *session,
                    RequestKind::DeleteDatabase,
                    None,
                ) {
                    e@ == denied(RequestKind::DeleteDatabase, None)
                } else {
                    !old(self).databases().contains_key(name@) && e@
                        == ErrorView::DatabaseNotFound(name@)
                },
            },
    {
        match permit(session, RequestKind::DeleteDatabase, None) {
            Ok(_) => {},
            Err(e) => { return Err(e); },
        }
        let key = String::from_str(name);
        match self.databases.remove(&key) {
            Some(_) => Ok(()),
            None => Err(Error::DatabaseNotFound(key)),
        }
    }

    /// The databases, in the order in which they came into the server,
    /// each with the schema of this server. Fails with `PermissionDenied`
    /// for a session that may not make the request `ListDatabases` of the
    /// server, and with `InvalidName`, of the first part of the name of
    /// the schema that is no name, where the schema has no name.
    pub fn list_databases(&self, session: &Session) -> (r: Result<
        Vec<connection::Database>,
        Error,
    >)
        requires
            self.wf(),
        ensures
            match r {
                Ok(list) => permitted(*session, RequestKind::ListDatabases, None) && list@.len()
                    == self.names().len() && forall|i: int|
                    0 <= i < list@.len() ==> (#[trigger] list@[i]).name@ == self.names()[i]
                        && list@[i].schema@ == S::spec_schema_name(),
                Err(e) => if !permitted(*session, RequestKind::ListDatabases, None) {
                    e@ == denied(RequestKind::ListDatabases, None)
                } else {
                    !Self::schema_is_registered(S::spec_schema_name()) && e@
                        == ErrorView::InvalidName(
                        if crate::schema::valid_name(S::spec_schema_name().0) {
                            S::spec_schema_name().1
                        } else {
                            S::spec_schema_name().0
                        },
                    )
                },
            },
    {
        match permit(session, RequestKind::ListDatabases, None) {
            Ok(_) => {},
            Err(e) => { return Err(e); },
        }
        let schema = match S::schema_name() {
            Ok(schema) => schema,
            Err(e) => { return Err(Error::InvalidName(e.0)); },
        };
        let mut list: Vec<connection::Database> = Vec::new();
        let mut i: usize = 0;
        while i < self.databases.len()
            invariant
                i <= self.names().len(),
                list@.len() == i,
                schema@ == S::spec_schema_name(),
                forall|j: int|
                    0 <= j < i ==> (#[trigger] list@[j]).name@ == self.names()[j] && list@[j].schema@
                        == S::spec_schema_name(),
            decreases self.names().len() - i,
        {
            list.push(
                connection::Database {
                    name: self.databases.key_at(i).clone(),
                    schema: schema.clone(),
                },
            );
            i += 1;
        }
        Ok(list)
    }

    /// The database with the name `name`, for a session that may make the
    /// request `kind` of it. Fails with `PermissionDenied` for a session
    /// that may not, and with `DatabaseNotFound` if there is no such
    /// database.
    pub fn database(&self, session: &Session, kind: RequestKind, name: &str) -> (r: Result<
        &Database<S>,
        Error,
    >)
        requires
            self.wf(),
        ensures
            match r {
                Ok(db) => permitted(*session, kind, Some(name@)) && self.databases().contains_key(
                    name@,
                ) && *db == self.databases()[name@] && db.wf() && db.name@ == name@,
                Err(e) => if !permitted(*session, kind, Some(name@)) {
                    e@ == denied(kind, Some(name@))
                } else {
                    !self.databases().contains_key(name@) && e@ == ErrorView::DatabaseNotFound(
                        name@,
                    )
                },
            },
    {
        match permit(session, kind, Some(name)) {
            Ok(_) => {},
            Err(e) => { return Err(e); },
        }
        let key = String::from_str(name);
        match self.databases.get(&key) {
            Some(db) => Ok(db),
            None => Err(Error::DatabaseNotFound(key)),
        }
    }

    /// Takes the database with the name `name` out of the server, for a
    /// session that may make the request `kind` of it, to be worked on and
    /// put back with [`Server::put_database`]. Fails, and changes nothing,
    /// with `PermissionDenied` for a session that may not, and with
    /// `DatabaseNotFound` if there is no such database.
    pub fn take_database(&mut self, session: &Session, kind: RequestKind, name: &str) -> (r:
        Result<Database<S>, Error>)
        requires
            old(self).wf(),
        ensures
            final(self).wf(),
            final(self).manager() == old(self).manager(),
            match r {
                Ok(db) => permitted(*session, kind, Some(name@)) && old(
                    self,
                ).databases().contains_key(name@) && db == old(self).databases()[name@]
                    && db.wf() && db.name@ == name@ && final(self).databases() == old(
                    self,
                ).databases().remove(name@) && final(self).names() == old(self).names().remove(
                    old(self).names().index_of(name@),
                ),
                Err(e) => final(self).databases() == old(self).databases() && final(self).names()
                    == old(self).names() && if !permitted(*session, kind, Some(name@)) {
                    e@ == denied(kind, Some(name@))
                } else {
                    !old(self).databases().contains_key(name@) && e@
                        == ErrorView::DatabaseNotFound(name@)
                },
            },
    {
        match permit(session, kind, Some(name)) {
            Ok(_) => {},
            Err(e) => { return Err(e); },
        }
        let key = String::from_str(name);
        match self.databases.remove(&key) {
            Some(db) => Ok(db),
            None => Err(Error::DatabaseNotFound(key)),
        }
    }

    /// Whether the database `after` is the database `before` without the
    /// subscribers that the session `session` owns.
    pub open spec fn without_subscribers_of(
        before: Database<S>,
        after: Database<S>,
        session: u64,
    ) -> bool {
        &&& after.name == before.name
        &&& after.storage == before.storage
        &&& after.documents == before.documents
        &&& after.relay@ == before.relay@.remove_keys(owned_by(before.relay@, session))
        &&& after.relay.capacity() == before.relay.capacity()
        &&& after.relay.next_id() == before.relay.next_id()
    }

    /// Ends the session `session`: its id is no longer valid, and the
    /// subscribers that it owns are removed from every database. Fails with
    /// `SessionExpired`, and changes nothing, if there is no such session.
    pub fn end_session(&mut self, session: SessionId) -> (r: Result<(), Error>)
        requires
            old(self).wf(),
        ensures
            final(self).wf(),
            final(self).names() == old(self).names(),
            final(self).databases().dom() == old(self).databases().dom(),
            final(self).manager().users() == old(self).manager().users(),
            final(self).manager().groups() == old(self).manager().groups(),
            final(self).manager().roles() == old(self).manager().roles(),
            match r {
                Ok(_) => {
                    &&& old(self).manager().sessions().contains_key(session.0)
                    &&& final(self).manager().sessions() == old(self).manager().sessions().remove(
                        session.0,
                    )
                    &&& forall|name: Seq<char>| #[trigger]
                        old(self).databases().contains_key(name) ==> Self::without_subscribers_of(
                            old(self).databases()[name],
                            final(self).databases()[name],
                            session.0,
                        )
                },
                Err(e) => {
                    &&& !old(self).manager().sessions().contains_key(session.0)
                    &&& e@ == ErrorView::SessionExpired
                    &&& final(self).manager().sessions() == old(self).manager().sessions()
                    &&& final(self).databases() == old(self).databases()
                },
            },
    {
        match self.sessions.end_session(session) {
            Ok(_) => {},
            Err(e) => { return Err(e); },
        }
        let ghost before = self.databases@;
        let ghost manager = self.sessions;
        let ghost keys = self.databases.keys();
        let n = self.databases.len();
        let mut i: usize = 0;
        proof {
            self.databases.lemma_key_positions();
        }
        while i < n
            invariant
                self.databases.wf(),
                self.sessions.wf(),
                self.sessions == manager,
                self.databases.keys() == keys,
                keys.no_duplicates(),
                n == keys.len(),
                i <= n,
                before == old(self).databases@,
                old(self).wf(),
                forall|j: int| 0 <= j < n ==> before.contains_key(#[trigger] keys[j]),
                forall|name: Seq<char>| self.databases@.contains_key(name) <==> before.contains_key(name),
                forall|j: int|
                    0 <= j < n ==> (if j < i {
                        Self::without_subscribers_of(
                            before[#[trigger] keys[j]],
                            self.databases@[keys[j]],
                            session.0,
                        ) && self.databases@[keys[j]].wf()
                    } else {
                        self.databases@[keys[j]] == before[keys[j]]
                    }),
            decreases n - i,
        {
            let name = self.databases.key_at(i).clone();
            let ghost middle = self.databases@;
            match self.databases.get_mut(&name) {
                Some(db) => {
                    db.relay.unregister_owned_by(session);
                },
                None => {},
            }
            proof {
                assert(name@ == keys[i as int]);
                assert forall|other: Seq<char>| self.databases@.contains_key(other)
                    <==> before.contains_key(other) by {
                    assert(middle.contains_key(other) <==> before.contains_key(other));
                }
                assert forall|j: int| 0 <= j < n implies (if j < i + 1 {
                    Self::without_subscribers_of(
                        before[#[trigger] keys[j]],
                        self.databases@[keys[j]],
                        session.0,
                    ) && self.databases@[keys[j]].wf()
                } else {
                    self.databases@[keys[j]] == before[keys[j]]
                }) by {
                    if j != i as int {
                        assert(keys[j] != keys[i as int]);
                        assert(self.databases@[keys[j]] == middle[keys[j]]);
                    } else {
                        assert(middle[keys[j]] == before[keys[j]]);
                        assert(old(self).databases@.contains_key(keys[j]));
                        assert(before[keys[j]].wf());
                    }
                }
            }
            i += 1;
        }
        proof {
            assert(self.databases().dom() =~= old(self).databases().dom());
            assert forall|name: Seq<char>| #[trigger]
                old(self).databases().contains_key(name) implies Self::without_subscribers_of(
                old(self).databases()[name],
                self.databases()[name],
                session.0,
            ) && self.databases@[name].wf() by {
                let j = choose|j: int| 0 <= j < keys.len() && #[trigger] keys[j] == name;
                assert(Self::without_subscribers_of(
                    before[keys[j]],
                    self.databases@[keys[j]],
                    session.0,
                ));
            }
        }
        Ok(())
    }

    /// Puts a database into the server, under its name, in place of any
    /// database that has the name; a name that is new to the server comes
    /// last.
    pub fn put_database(&mut self, database: Database<S>)
        requires
            old(self).wf(),
            database.wf(),
        ensures
            final(self).wf(),
            final(self).manager() == old(self).manager(),
            final(self).databases() == old(self).databases().insert(database.name@, database),
            final(self).names() == (if old(self).databases().contains_key(database.name@) {
                old(self).names()
            } else {
                old(self).names().push(database.name@)
            }),
    {
        let key = database.name.clone();
        self.databases.insert(key, database);
    }
}

/// What a session must be allowed in order to make a request: the action
/// with the name of the request, on the database that the request names,
/// or on `server` for a request that names none.
pub open spec fn request_resource(database: Option<Seq<char>>) -> Seq<char> {
    match database {
        Some(name) => name,
        None => "server"@,
    }
}

/// Checks that the session may make the request with the name `action` on
/// the database `database`, or on the server where the request names no
/// database. Fails with `PermissionDenied` if it may not.
pub fn authorize(session: &Session, action: &str, database: Option<&str>) -> (r: Result<(), Error>)
    ensures
        match r {
            Ok(_) => session.spec_allowed_to(
                action@,
                request_resource(
                    match database {
                        Some(name) => Some(name@),
                        None => None,
                    },
                ),
            ),
            Err(e) => {
                let resource = request_resource(
                    match database {
                        Some(name) => Some(name@),
                        None => None,
                    },
                );
                !session.spec_allowed_to(action@, resource) && e@ == ErrorView::PermissionDenied(
                    action@,
                    resource,
                )
            },
        },
{
    let resource = match database {
        Some(name) => name,
        None => "server",
    };
    if session.allowed_to(action, resource) {
        Ok(())
    } else {
        Err(Error::PermissionDenied(String::from_str(action), String::from_str(resource)))
    }
}

} // verus!
