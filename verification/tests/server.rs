use bonsaidb::connection::{Identity, Session, Statement};
use bonsaidb::error::Error;
use bonsaidb::networking::{Api, CreateDatabase, Get, RequestKind};
use bonsaidb::schema::{Name, Schema, SchemaName};
use bonsaidb::server::{authorize, permit, Server};
use bonsaidb::test_util::Basic;

fn root() -> Session {
    Session {
        id: None,
        identity: None,
        permissions: vec![Statement { action: String::from("*"), resource: String::from("*") }],
    }
}

fn nobody() -> Session {
    Session { id: None, identity: None, permissions: vec![] }
}

#[test]
fn basic_server_connection() {
    let mut server: Server<Basic> = Server::new();
    let basic = Basic::schema_name().unwrap();
    server.create_database(&root(), "tests", &basic, false).unwrap();

    let schemas = server.list_available_schemas(&root()).unwrap();
    assert_eq!(schemas, vec![Basic::schema_name().unwrap()]);

    let databases = server.list_databases(&root()).unwrap();
    assert_eq!(databases.len(), 1);
    assert_eq!(databases[0].name, "tests");
    assert_eq!(databases[0].schema, basic);

    server.create_database(&root(), "another-db", &basic, false).unwrap();
    server.delete_database(&root(), "another-db").unwrap();

    assert!(matches!(server.delete_database(&root(), "another-db"), Err(Error::DatabaseNotFound(_))));
    assert!(matches!(
        server.create_database(&root(), "tests", &basic, false),
        Err(Error::DatabaseNameAlreadyTaken(_))
    ));
    assert!(matches!(
        server.create_database(&root(), "|invalidname", &basic, false),
        Err(Error::InvalidDatabaseName(_))
    ));
    assert!(matches!(
        server.create_database(&root(), "another-db", &SchemaName::new("unknown", "unknown-schema").unwrap(), false),
        Err(Error::SchemaNotRegistered(_))
    ));
}

#[test]
fn only_if_needed_leaves_an_existing_database() {
    let mut server: Server<Basic> = Server::new();
    let basic = Basic::schema_name().unwrap();
    server.create_database(&root(), "d", &basic, true).unwrap();
    assert_eq!(server.create_database(&root(), "d", &basic, true), Ok(()));
    assert_eq!(server.list_databases(&root()).unwrap().len(), 1);
    assert_eq!(
        server.create_database(&root(), "D", &basic, true),
        Err(Error::InvalidDatabaseName(String::from("D")))
    );
    assert_eq!(
        server.create_database(&root(), &"a".repeat(65), &basic, true),
        Err(Error::InvalidDatabaseName("a".repeat(65)))
    );
    assert!(server.database(&root(), RequestKind::Get, "d").is_ok());
    assert_eq!(
        server.database(&root(), RequestKind::Get, "e").map(|d| d.name.clone()),
        Err(Error::DatabaseNotFound(String::from("e")))
    );
}

#[test]
fn a_database_can_be_taken_worked_on_and_put_back() {
    let mut server: Server<Basic> = Server::new();
    server.create_database(&root(), "d", &Basic::schema_name().unwrap(), false).unwrap();
    let mut db = server.take_database(&root(), RequestKind::CreateSubscriber, "d").unwrap();
    let id = db.relay.create_subscriber(None).unwrap();
    server.put_database(db);
    let db = server.database(&root(), RequestKind::Get, "d").unwrap();
    assert_eq!(db.name, "d");
    let mut copy = server.take_database(&root(), RequestKind::UnregisterSubscriber, "d").unwrap();
    assert_eq!(copy.relay.unregister_subscriber(id), Ok(()));
}

#[test]
fn requests_are_found_by_their_names() {
    assert_eq!(CreateDatabase::name(), Name::from("CreateDatabase"));
    assert_eq!(Get::name(), Name::from("Get"));
    assert_eq!(RequestKind::from_name(&Name::from("Get")), Ok(RequestKind::Get));
    assert_eq!(
        RequestKind::from_name(&Name::from("AlterUserPermissionGroupMembership")),
        Ok(RequestKind::AlterUserPermissionGroupMembership)
    );
    assert_eq!(RequestKind::Compact.name(), Name::from("Compact"));
    assert_eq!(
        RequestKind::from_name(&Name::from("get")),
        Err(Error::ApiNotRegistered(String::from("get")))
    );
    assert!(RequestKind::Get.of_database());
    assert!(!RequestKind::CreateUser.of_database());
}

#[test]
fn authorization_consults_the_statements_of_the_session() {
    let session = Session {
        id: None,
        identity: None,
        permissions: vec![
            Statement { action: String::from("Get"), resource: String::from("d") },
            Statement { action: String::from("ListDatabases"), resource: String::from("server") },
        ],
    };
    assert_eq!(authorize(&session, "Get", Some("d")), Ok(()));
    assert_eq!(authorize(&session, "ListDatabases", None), Ok(()));
    assert_eq!(
        authorize(&session, "Get", Some("e")),
        Err(Error::PermissionDenied(String::from("Get"), String::from("e")))
    );
    assert_eq!(
        authorize(&session, "CreateUser", None),
        Err(Error::PermissionDenied(String::from("CreateUser"), String::from("server")))
    );
}

#[test]
fn ending_a_session_removes_its_subscribers_everywhere() {
    let mut server: Server<Basic> = Server::new();
    let basic = Basic::schema_name().unwrap();
    server.create_database(&root(), "one", &basic, false).unwrap();
    server.create_database(&root(), "two", &basic, false).unwrap();
    let user = server
        .sessions_mut(&root(), RequestKind::CreateUser)
        .unwrap()
        .create_user("ada")
        .unwrap();
    let session = server
        .sessions_mut(&root(), RequestKind::AssumeIdentity)
        .unwrap()
        .assume_identity(&root(), Identity::User(user))
        .unwrap();
    let sid = session.id.unwrap();
    let mut ids = vec![];
    for name in ["one", "two"] {
        let mut db = server.take_database(&root(), RequestKind::SubscribeTo, name).unwrap();
        ids.push(db.relay.create_subscriber(Some(sid)).unwrap());
        ids.push(db.relay.create_subscriber(None).unwrap());
        server.put_database(db);
    }
    assert_eq!(server.end_session(sid), Ok(()));
    assert_eq!(server.end_session(sid), Err(Error::SessionExpired));
    assert_eq!(server.sessions().session(sid).map(|s| s.identity), Err(Error::SessionExpired));
    for (i, name) in ["one", "two"].iter().enumerate() {
        let mut db = server.take_database(&root(), RequestKind::SubscribeTo, name).unwrap();
        assert_eq!(db.relay.subscribe_to(ids[2 * i], "t"), Err(Error::SubscriberNotFound));
        assert_eq!(db.relay.subscribe_to(ids[2 * i + 1], "t"), Ok(()));
        server.put_database(db);
    }
    assert_eq!(server.list_databases(&root()).unwrap().len(), 2);
}

#[test]
fn every_request_is_checked_against_the_session() {
    let mut server: Server<Basic> = Server::new();
    let basic = Basic::schema_name().unwrap();
    let denied = |action: &str, resource: &str| {
        Error::PermissionDenied(String::from(action), String::from(resource))
    };
    assert_eq!(
        server.create_database(&nobody(), "d", &basic, false),
        Err(denied("CreateDatabase", "server"))
    );
    assert_eq!(
        server.create_database(&nobody(), "|", &basic, false),
        Err(denied("CreateDatabase", "server"))
    );
    server.create_database(&root(), "d", &basic, false).unwrap();
    assert_eq!(server.list_databases(&nobody()), Err(denied("ListDatabases", "server")));
    assert_eq!(
        server.list_available_schemas(&nobody()),
        Err(denied("ListAvailableSchemas", "server"))
    );
    assert_eq!(server.delete_database(&nobody(), "d"), Err(denied("DeleteDatabase", "server")));
    assert_eq!(server.list_databases(&root()).unwrap().len(), 1);
    assert_eq!(
        server.database(&nobody(), RequestKind::Get, "d").map(|d| d.name.clone()),
        Err(denied("Get", "d"))
    );
    assert_eq!(
        server.database(&nobody(), RequestKind::Get, "missing").map(|d| d.name.clone()),
        Err(denied("Get", "missing"))
    );
    assert!(server.take_database(&nobody(), RequestKind::ApplyTransaction, "d").is_err());
    assert!(server.sessions_mut(&nobody(), RequestKind::CreateUser).is_err());
    let reader = Session {
        id: None,
        identity: None,
        permissions: vec![Statement { action: String::from("Get"), resource: String::from("d") }],
    };
    assert!(server.database(&reader, RequestKind::Get, "d").is_ok());
    assert_eq!(
        server.database(&reader, RequestKind::List, "d").map(|d| d.name.clone()),
        Err(denied("List", "d"))
    );
    assert_eq!(permit(&reader, RequestKind::Get, Some("d")), Ok(()));
    assert_eq!(permit(&reader, RequestKind::Get, None), Err(denied("Get", "server")));
}

#[test]
fn a_deleted_database_is_no_longer_listed() {
    let mut server: Server<Basic> = Server::new();
    let basic = Basic::schema_name().unwrap();
    let names = |server: &Server<Basic>| -> Vec<String> {
        server.list_databases(&root()).unwrap().into_iter().map(|d| d.name).collect()
    };
    server.create_database(&root(), "a", &basic, false).unwrap();
    server.delete_database(&root(), "a").unwrap();
    assert!(names(&server).is_empty());
    server.create_database(&root(), "a", &basic, false).unwrap();
    server.create_database(&root(), "b", &basic, false).unwrap();
    server.create_database(&root(), "c", &basic, false).unwrap();
    assert_eq!(names(&server), vec!["a", "b", "c"]);
    server.delete_database(&root(), "b").unwrap();
    assert_eq!(names(&server), vec!["a", "c"]);
    let taken = server.take_database(&root(), RequestKind::Get, "a").unwrap();
    assert_eq!(names(&server), vec!["c"]);
    server.put_database(taken);
    assert_eq!(names(&server), vec!["c", "a"]);
}
