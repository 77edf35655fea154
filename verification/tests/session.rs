use bonsaidb::connection::{Identity, Session, Statement};
use bonsaidb::error::Error;
use bonsaidb::permissions::role::Role;
use bonsaidb::schema::NamedReference;
use bonsaidb::session::SessionManager;

fn toy_hash(salt: &[u8], password: &str) -> Vec<u8> {
    let mut h: Vec<u8> = salt.to_vec();
    h.extend(password.bytes().rev());
    h
}

fn by_name(name: &str) -> NamedReference {
    NamedReference::Name(String::from(name))
}

#[test]
fn authentication() {
    let mut manager = SessionManager::new();
    let id = manager.create_user("ada").unwrap();
    let salt = vec![9u8, 9, 9];
    manager
        .set_user_password(&by_name("ada"), salt.clone(), toy_hash(&salt, "s3cret"))
        .unwrap();
    let stored_salt = manager.password_salt(&by_name("ada")).unwrap();
    assert_eq!(stored_salt, salt);
    let session = manager.authenticate(&by_name("ada"), &toy_hash(&stored_salt, "s3cret")).unwrap();
    assert_eq!(session.identity, Some(Identity::User(id)));
    assert!(session.id.is_some());
    assert_eq!(
        manager.authenticate(&by_name("ada"), &toy_hash(&stored_salt, "bad")),
        Err(Error::InvalidCredentials)
    );
    assert_eq!(
        manager.authenticate(&by_name("nobody"), &toy_hash(&stored_salt, "s3cret")),
        Err(Error::InvalidCredentials)
    );
    assert_eq!(
        manager.authenticate(&NamedReference::Id(id), &toy_hash(&stored_salt, "s3cret")).map(|s| s.identity),
        Ok(Some(Identity::User(id)))
    );
}

#[test]
fn a_user_without_a_password_cannot_authenticate() {
    let mut manager = SessionManager::new();
    manager.create_user("ada").unwrap();
    assert_eq!(manager.authenticate(&by_name("ada"), &[]), Err(Error::InvalidCredentials));
}

#[test]
fn usernames_are_checked_and_unique() {
    let mut manager = SessionManager::new();
    assert_eq!(manager.create_user("ada"), Ok(1));
    assert_eq!(manager.create_user("bob_2"), Ok(2));
    assert_eq!(manager.create_user("Ada"), Err(Error::InvalidName(String::from("Ada"))));
    assert_eq!(manager.create_user(""), Err(Error::InvalidName(String::new())));
    assert_eq!(manager.create_user(&"a".repeat(65)), Err(Error::InvalidName("a".repeat(65))));
    assert_eq!(manager.create_user(&"a".repeat(64)), Ok(3));
    assert_eq!(
        manager.create_user("ada"),
        Err(Error::UniqueKeyViolation(String::from("khonsulabs.user.by-name"), b"ada".to_vec()))
    );
    assert_eq!(manager.delete_user(&by_name("ada")), Ok(()));
    assert_eq!(manager.delete_user(&by_name("ada")), Err(Error::UserNotFound));
    assert_eq!(manager.create_user("ada"), Ok(4));
}

#[test]
fn permissions_come_from_groups_and_roles() {
    let mut manager = SessionManager::new();
    let id = manager.create_user("ada").unwrap();
    manager.set_user_password(&NamedReference::Id(id), vec![1], vec![2]).unwrap();
    let readers = manager
        .create_permission_group(
            String::from("readers"),
            vec![Statement { action: String::from("Get"), resource: String::from("*") }],
        )
        .unwrap();
    let writers = manager
        .create_permission_group(
            String::from("writers"),
            vec![Statement { action: String::from("ApplyTransaction"), resource: String::from("d") }],
        )
        .unwrap();
    let editor = manager
        .create_role(Role { name: String::from("editor"), groups: vec![writers] })
        .unwrap();
    let before = manager.authenticate(&NamedReference::Id(id), &[2]).unwrap();
    assert!(!before.allowed_to("Get", "d"));
    manager
        .alter_user_permission_group_membership(&by_name("ada"), &by_name("readers"), true)
        .unwrap();
    manager
        .alter_user_role_membership(&by_name("ada"), &NamedReference::Id(editor), true)
        .unwrap();
    let session = manager.authenticate(&NamedReference::Id(id), &[2]).unwrap();
    assert!(session.allowed_to("Get", "d"));
    assert!(session.allowed_to("Get", "elsewhere"));
    assert!(session.allowed_to("ApplyTransaction", "d"));
    assert!(!session.allowed_to("ApplyTransaction", "elsewhere"));
    assert!(!session.allowed_to("Delete", "d"));
    manager
        .alter_user_permission_group_membership(&by_name("ada"), &NamedReference::Id(readers), false)
        .unwrap();
    let after = manager.authenticate(&NamedReference::Id(id), &[2]).unwrap();
    assert!(!after.allowed_to("Get", "d"));
    assert!(after.allowed_to("ApplyTransaction", "d"));
    assert_eq!(
        manager.alter_user_role_membership(&by_name("ada"), &by_name("nothing"), true),
        Err(Error::RoleNotFound)
    );
    assert_eq!(
        manager.alter_user_permission_group_membership(&by_name("zed"), &by_name("readers"), true),
        Err(Error::UserNotFound)
    );
    assert_eq!(
        manager.alter_user_permission_group_membership(&by_name("ada"), &by_name("nothing"), true),
        Err(Error::PermissionGroupNotFound)
    );
}

#[test]
fn assuming_an_identity_needs_the_permission() {
    let mut manager = SessionManager::new();
    let id = manager.create_user("ada").unwrap();
    let nobody = Session { id: None, identity: None, permissions: vec![] };
    assert_eq!(
        manager.assume_identity(&nobody, Identity::User(id)),
        Err(Error::PermissionDenied(String::from("AssumeIdentity"), format!("user.{}", id)))
    );
    let root = Session {
        id: None,
        identity: None,
        permissions: vec![Statement { action: String::from("*"), resource: String::from("*") }],
    };
    let session = manager.assume_identity(&root, Identity::User(id)).unwrap();
    assert_eq!(session.identity, Some(Identity::User(id)));
    assert_eq!(manager.assume_identity(&root, Identity::User(77)), Err(Error::UserNotFound));
    assert_eq!(manager.assume_identity(&root, Identity::Role(77)), Err(Error::RoleNotFound));
    let narrow = Session {
        id: None,
        identity: None,
        permissions: vec![Statement {
            action: String::from("AssumeIdentity"),
            resource: format!("user.{}", id),
        }],
    };
    assert!(manager.assume_identity(&narrow, Identity::User(id)).is_ok());
    let sid = session.id.unwrap();
    assert_eq!(manager.session(sid).map(|s| s.identity), Ok(Some(Identity::User(id))));
    assert_eq!(manager.end_session(sid), Ok(()));
    assert_eq!(manager.session(sid).map(|s| s.identity), Err(Error::SessionExpired));
    assert_eq!(manager.end_session(sid), Err(Error::SessionExpired));
}

#[test]
fn an_identity_is_named_by_its_id_in_decimal() {
    let mut manager = SessionManager::new();
    let nobody = Session { id: None, identity: None, permissions: vec![] };
    for id in [0u64, 1, 9, 10, 99, 100, 120, 1_000_000_007, u64::MAX] {
        assert_eq!(
            manager.assume_identity(&nobody, Identity::User(id)),
            Err(Error::PermissionDenied(String::from("AssumeIdentity"), format!("user.{}", id)))
        );
        assert_eq!(
            manager.assume_identity(&nobody, Identity::Role(id)),
            Err(Error::PermissionDenied(String::from("AssumeIdentity"), format!("role.{}", id)))
        );
    }
    assert_eq!(
        manager.assume_identity(&nobody, Identity::Role(u64::MAX)),
        Err(Error::PermissionDenied(
            String::from("AssumeIdentity"),
            String::from("role.18446744073709551615")
        ))
    );
    for i in 1..=12u64 {
        assert_eq!(manager.create_user(&format!("user-{}", i)), Ok(i));
    }
    let narrow = Session {
        id: None,
        identity: None,
        permissions: vec![Statement {
            action: String::from("AssumeIdentity"),
            resource: String::from("user.12"),
        }],
    };
    assert_eq!(
        manager.assume_identity(&narrow, Identity::User(12)).map(|s| s.identity),
        Ok(Some(Identity::User(12)))
    );
    assert!(matches!(
        manager.assume_identity(&narrow, Identity::User(1)),
        Err(Error::PermissionDenied(_, _))
    ));
}

#[test]
fn sessions_take_the_ids_in_their_order() {
    let mut manager = SessionManager::new();
    let id = manager.create_user("ada").unwrap();
    manager.set_user_password(&by_name("ada"), vec![1], vec![2, 3]).unwrap();
    let first = manager.authenticate(&by_name("ada"), &[2, 3]).unwrap();
    let second = manager.authenticate(&NamedReference::Id(id), &[2, 3]).unwrap();
    assert_eq!(first.id.map(|s| s.0), Some(1));
    assert_eq!(second.id.map(|s| s.0), Some(2));
    assert_eq!(manager.session(first.id.unwrap()).map(|s| s.identity), Ok(Some(Identity::User(id))));
    assert_eq!(manager.authenticate(&by_name("ada"), &[2]), Err(Error::InvalidCredentials));
    let third = manager.authenticate(&by_name("ada"), &[2, 3]).unwrap();
    assert_eq!(third.id.map(|s| s.0), Some(3));
}
