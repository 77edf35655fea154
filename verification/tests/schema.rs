use bonsaidb::admin::Admin;
use bonsaidb::codec::{
    read_bytes, read_i64, read_text, read_u32, read_u64, read_u64_list, read_u8, write_bytes,
    write_i64, write_text, write_u32, write_u64, write_u64_list, write_u8,
};
use bonsaidb::connection::{AccessPolicy, Bound, QueryKey, Range, Sort};
use bonsaidb::database::Database;
use bonsaidb::document::{DocumentId, Header, OwnedDocument, Revision};
use bonsaidb::error::Error;
use bonsaidb::keyvalue::Timestamp;
use bonsaidb::order::{bytes_equal, compare_bytes, Comparison};
use bonsaidb::permissions::role::{ByName, Role};
use bonsaidb::schema::{
    check_lower_name, check_name, Collection, CollectionName, InvalidNameError, MapView, Name,
    Schema, SchemaName, Schematic, ViewDefinition, ViewName,
};
use bonsaidb::transaction::{Command, Operation, Transaction};
use bonsaidb::tree::{Swap, Tree};

#[test]
fn names_are_made_of_letters_digits_underscores_and_hyphens() {
    for valid in ["a", "by-name", "A_b-9", "0"] {
        assert!(check_name(valid));
        assert_eq!(Name::new(valid).map(|n| n.name), Ok(String::from(valid)));
    }
    for invalid in ["", "a b", "a.b", "é", "a/b", "a\n"] {
        assert!(!check_name(invalid));
        assert_eq!(Name::new(invalid), Err(InvalidNameError(String::from(invalid))));
    }
    assert!(check_lower_name("a-1", false));
    assert!(!check_lower_name("a_1", false));
    assert!(check_lower_name("a_1", true));
    assert!(!check_lower_name("A", true));
    assert!(!check_lower_name("", true));
    assert!(check_lower_name(&"z".repeat(64), false));
    assert!(!check_lower_name(&"z".repeat(65), false));
}

#[test]
fn collection_names_have_two_parts() {
    let name = CollectionName::new("khonsulabs", "role").unwrap();
    assert_eq!(name.to_string(), "khonsulabs.role");
    assert_eq!(CollectionName::new("khonsu labs", "role"), Err(InvalidNameError(String::from("khonsu labs"))));
    assert_eq!(CollectionName::new("khonsulabs", ""), Err(InvalidNameError(String::new())));
    assert_eq!(SchemaName::new("a", "b").unwrap().to_string(), "a.b");
    let view = ViewName { collection: name, name: Name::new("by-name").unwrap() };
    assert_eq!(view.to_string(), "khonsulabs.role.by-name");
}

#[test]
fn a_schema_defines_each_collection_and_view_once() {
    let mut schema = Schematic::new();
    let users = CollectionName::new("a", "users").unwrap();
    let view = ViewName { collection: users.clone(), name: Name::from("by-name") };
    let definition = |unique| ViewDefinition { name: view.clone(), unique, version: 1 };
    assert_eq!(schema.define_view(definition(true)), Err(Error::CollectionNotFound));
    assert_eq!(schema.define_collection(users.clone()), Ok(()));
    assert_eq!(
        schema.define_collection(users.clone()),
        Err(Error::InvalidName(String::from("a.users")))
    );
    assert_eq!(schema.define_view(definition(true)), Ok(()));
    assert_eq!(
        schema.define_view(definition(false)),
        Err(Error::InvalidName(String::from("a.users.by-name")))
    );
    assert!(schema.contains_collection(&users));
    assert_eq!(
        schema.define_collection(CollectionName::new("A", "Users").unwrap()),
        Err(Error::InvalidName(String::from("A.Users")))
    );
    assert!(!schema.contains_collection(&CollectionName::new("A", "Users").unwrap()));
    assert!(schema.contains_collection_like(&CollectionName::new("A", "Users").unwrap()));
    assert_eq!(schema.define_collection(CollectionName::new("a", "users-2").unwrap()), Ok(()));
    assert_eq!(schema.collection_count(), 2);
    assert_eq!(schema.collection_at(1).to_string(), "a.users-2");
    assert!(bonsaidb::schema::same_ignoring_case("By-Name_9", "bY-nAME_9"));
    assert!(!bonsaidb::schema::same_ignoring_case("by-name", "by_name"));
    assert!(!bonsaidb::schema::same_ignoring_case("a", "ab"));
    assert_eq!(schema.view_count(), 1);
    assert_eq!(schema.find_view(&view), Some(0));
    assert!(schema.view_at(0).unique);
}

#[test]
fn the_role_collection_defines_its_view() {
    assert_eq!(Role::collection_name().unwrap().to_string(), "khonsulabs.role");
    assert!(ByName.unique());
    assert_eq!(ByName.version(), 1);
    assert_eq!(ByName.name(), Ok(Name::from("by-name")));
    let mut schema = Schematic::new();
    assert_eq!(Role::define_views(&mut schema), Err(Error::CollectionNotFound));
    schema.define_collection(Role::collection_name().unwrap()).unwrap();
    assert_eq!(Role::define_views(&mut schema), Ok(()));
    assert_eq!(schema.view_at(0).name.to_string(), "khonsulabs.role.by-name");
    assert!(schema.view_at(0).unique);
    assert_eq!(schema.view_at(0).version, 1);
}

#[test]
fn roles_round_trip_and_map_to_their_names() {
    let role = Role { name: String::from("editor"), groups: vec![1, 2, u64::MAX] };
    let bytes = role.encode();
    assert_eq!(Role::decode(&bytes), Some(Role { name: String::from("editor"), groups: vec![1, 2, u64::MAX] }));
    assert_eq!(Role::decode(&bytes[..bytes.len() - 1]), None);
    let document = OwnedDocument {
        header: Header { id: DocumentId::from_u64(1), revision: Revision { id: 0 } },
        contents: bytes,
    };
    let mapped = ByName.map(&document).unwrap();
    assert_eq!(mapped.len(), 1);
    assert_eq!(mapped[0].key, b"editor".to_vec());
    assert!(mapped[0].value.is_empty());
    let broken = OwnedDocument { contents: vec![1, 2, 3], ..document };
    assert!(matches!(ByName.map(&broken), Err(Error::Other(_))));
}

#[test]
fn the_admin_database_keeps_the_names_of_roles_apart() {
    assert_eq!(Admin::schema_name().unwrap().to_string(), "khonsulabs.bonsaidb-admin");
    let mut db: Database<Admin> = Database::new(String::from("admin")).unwrap();
    let roles = Role::collection_name().unwrap();
    let insert = |id: u64, name: &str| Operation {
        collection: Role::collection_name().unwrap(),
        command: Command::Insert {
            id: DocumentId::from_u64(id),
            contents: Role { name: String::from(name), groups: vec![] }.encode(),
        },
    };
    let now = Timestamp { seconds: 0, nanos: 0 };
    db.documents.apply_transaction(&Transaction { operations: vec![insert(1, "editor")] }, now).unwrap();
    assert_eq!(
        db.documents.apply_transaction(&Transaction { operations: vec![insert(2, "editor")] }, now),
        Err(Error::UniqueKeyViolation(String::from("khonsulabs.role.by-name"), b"editor".to_vec()))
    );
    let not_a_role = Operation {
        collection: roles.clone(),
        command: Command::Insert { id: DocumentId::from_u64(3), contents: vec![1] },
    };
    assert!(matches!(
        db.documents.apply_transaction(&Transaction { operations: vec![not_a_role] }, now),
        Err(Error::Other(_))
    ));
    let view = ViewName { collection: roles, name: Name::from("by-name") };
    let found = db
        .documents
        .query(&view, &Some(QueryKey::Matches(b"editor".to_vec())), Sort::Ascending, None, AccessPolicy::UpdateBefore)
        .unwrap();
    assert_eq!(found.len(), 1);
    assert_eq!(found[0].source.id, DocumentId::from_u64(1));
}

#[test]
fn document_ids_are_at_most_63_bytes() {
    assert!(DocumentId::new(&[7; 63]).is_ok());
    assert_eq!(DocumentId::new(&[7; 64]), Err(Error::DocumentIdTooLong));
    assert_eq!(DocumentId::new(&[]).unwrap().as_bytes(), &[] as &[u8]);
    assert_eq!(DocumentId::from_u64(1).as_bytes(), &[0, 0, 0, 0, 0, 0, 0, 1]);
    assert_eq!(DocumentId::from_u64(0x0102_0304_0506_0708).as_bytes(), &[1, 2, 3, 4, 5, 6, 7, 8]);
    let mut ids: Vec<u64> = vec![256, 1, u64::MAX, 255, 0, 65536];
    ids.sort_by(|a, b| DocumentId::from_u64(*a).as_bytes().cmp(DocumentId::from_u64(*b).as_bytes()));
    assert_eq!(ids, vec![0, 1, 255, 256, 65536, u64::MAX]);
}

#[test]
fn documents_round_trip() {
    let document = OwnedDocument {
        header: Header { id: DocumentId::new(&[1, 2, 3]).unwrap(), revision: Revision { id: 9 } },
        contents: vec![0, 1, 2, 3, 4],
    };
    let bytes = document.encode();
    assert_eq!(
        bytes,
        vec![3, 0, 0, 0, 0, 0, 0, 0, 1, 2, 3, 9, 0, 0, 0, 0, 0, 0, 0, 5, 0, 0, 0, 0, 0, 0, 0, 0, 1, 2, 3, 4]
    );
    assert_eq!(OwnedDocument::decode(&bytes), Some(document));
    assert_eq!(OwnedDocument::decode(&bytes[1..]), None);
    let mut too_long = Vec::new();
    write_bytes(&mut too_long, &[0; 64]);
    write_u64(&mut too_long, 0);
    write_bytes(&mut too_long, &[]);
    assert_eq!(OwnedDocument::decode(&too_long), None);
}

#[test]
fn the_codec_writes_little_endian_and_length_prefixes() {
    let mut out = vec![];
    write_u8(&mut out, 7);
    write_u32(&mut out, 0x0102_0304);
    write_u64(&mut out, 1);
    write_i64(&mut out, -2);
    write_bytes(&mut out, &[9, 8]);
    write_text(&mut out, "hé");
    write_u64_list(&mut out, &vec![3, 4]);
    assert_eq!(
        out,
        vec![
            7, 4, 3, 2, 1, 1, 0, 0, 0, 0, 0, 0, 0, 0xfe, 0xff, 0xff, 0xff, 0xff, 0xff, 0xff, 0xff, 2, 0,
            0, 0, 0, 0, 0, 0, 9, 8, 3, 0, 0, 0, 0, 0, 0, 0, b'h', 0xc3, 0xa9, 2, 0, 0, 0, 0, 0, 0, 0, 3,
            0, 0, 0, 0, 0, 0, 0, 4, 0, 0, 0, 0, 0, 0, 0
        ]
    );
    assert_eq!(read_u8(&out, 0), Some((7, 1)));
    assert_eq!(read_u32(&out, 1), Some((0x0102_0304, 5)));
    assert_eq!(read_u64(&out, 5), Some((1, 13)));
    assert_eq!(read_i64(&out, 13), Some((-2, 21)));
    assert_eq!(read_bytes(&out, 21), Some((vec![9, 8], 31)));
    assert_eq!(read_text(&out, 31), Some((String::from("hé"), 42)));
    assert_eq!(read_u64_list(&out, 42), Some((vec![3, 4], out.len())));
    assert_eq!(read_u64(&out, out.len() - 7), None);
    assert_eq!(read_u8(&out, out.len()), None);
    assert_eq!(read_bytes(&[255, 255, 255, 255, 255, 255, 255, 255, 1], 0), None);
    assert_eq!(read_u64_list(&[2, 0, 0, 0, 0, 0, 0, 0, 1, 0, 0, 0, 0, 0, 0, 0], 0), None);
    assert_eq!(read_text(&[1, 0, 0, 0, 0, 0, 0, 0, 0xff], 0), None);
    assert_eq!(i64::from_le_bytes(out[13..21].try_into().unwrap()), -2);
}

#[test]
fn keys_are_ordered_byte_by_byte() {
    assert_eq!(compare_bytes(b"", b""), Comparison::Equal);
    assert_eq!(compare_bytes(b"", b"a"), Comparison::Less);
    assert_eq!(compare_bytes(b"a", b""), Comparison::Greater);
    assert_eq!(compare_bytes(b"ab", b"b"), Comparison::Less);
    assert_eq!(compare_bytes(b"ab", b"a"), Comparison::Greater);
    assert_eq!(compare_bytes(&[0, 255], &[1]), Comparison::Less);
    assert_eq!(compare_bytes(b"same", b"same"), Comparison::Equal);
    assert!(bytes_equal(b"x", b"x"));
    assert!(!bytes_equal(b"x", b"xy"));
}

#[test]
fn a_tree_holds_one_value_for_each_key() {
    let mut tree = Tree::new();
    assert_eq!(tree.get(b"k"), None);
    tree.put(b"k", vec![1]);
    tree.put(b"a", vec![2]);
    tree.put(b"k", vec![3]);
    assert_eq!(tree.get(b"k"), Some(vec![3]));
    assert_eq!(tree.get(b"a"), Some(vec![2]));
    assert!(tree.contains_key(b"a"));
    assert_eq!(tree.remove(b"a"), Some(vec![2]));
    assert_eq!(tree.remove(b"a"), None);
    assert!(!tree.contains_key(b"a"));
}

#[test]
fn a_scan_lists_the_pairs_of_a_range_in_order() {
    let mut tree = Tree::new();
    for key in [&b"b"[..], b"a", b"d", b"c", b"ab"] {
        tree.put(key, key.to_vec());
    }
    assert_eq!(tree.len(), 5);
    let keys = |found: Vec<(Vec<u8>, Vec<u8>)>| found.into_iter().map(|p| p.0).collect::<Vec<_>>();
    let all = Range { start: Bound::Unbounded, end: Bound::Unbounded };
    assert_eq!(
        keys(tree.scan(&all, false, None)),
        vec![b"a".to_vec(), b"ab".to_vec(), b"b".to_vec(), b"c".to_vec(), b"d".to_vec()]
    );
    assert_eq!(keys(tree.scan(&all, true, Some(2))), vec![b"d".to_vec(), b"c".to_vec()]);
    assert_eq!(keys(tree.scan(&all, false, Some(0))), Vec::<Vec<u8>>::new());
    let middle = Range {
        start: Bound::Excluded(b"a".to_vec()),
        end: Bound::Included(b"c".to_vec()),
    };
    assert_eq!(
        keys(tree.scan(&middle, false, None)),
        vec![b"ab".to_vec(), b"b".to_vec(), b"c".to_vec()]
    );
    let half_open = Range {
        start: Bound::Included(b"a".to_vec()),
        end: Bound::Excluded(b"c".to_vec()),
    };
    assert_eq!(
        keys(tree.scan(&half_open, true, None)),
        vec![b"b".to_vec(), b"ab".to_vec(), b"a".to_vec()]
    );
}

#[test]
fn compare_and_swap_writes_only_what_was_expected() {
    let mut tree = Tree::new();
    assert!(matches!(tree.compare_and_swap(b"k", None, Some(vec![1])), Swap::Swapped));
    match tree.compare_and_swap(b"k", None, Some(vec![2])) {
        Swap::Conflict(current) => assert_eq!(current, Some(vec![1])),
        Swap::Swapped => panic!("the key held a value"),
    }
    assert_eq!(tree.get(b"k"), Some(vec![1]));
    match tree.compare_and_swap(b"k", Some(&vec![9]), None) {
        Swap::Conflict(current) => assert_eq!(current, Some(vec![1])),
        Swap::Swapped => panic!("the key held another value"),
    }
    assert!(matches!(tree.compare_and_swap(b"k", Some(&vec![1]), Some(vec![2])), Swap::Swapped));
    assert_eq!(tree.get(b"k"), Some(vec![2]));
    assert!(matches!(tree.compare_and_swap(b"k", Some(&vec![2]), None), Swap::Swapped));
    assert_eq!(tree.get(b"k"), None);
    match tree.compare_and_swap(b"k", Some(&vec![2]), None) {
        Swap::Conflict(current) => assert_eq!(current, None),
        Swap::Swapped => panic!("the key held nothing"),
    }
}

#[test]
fn a_schema_defined_twice_fails_at_its_first_collection() {
    let mut schema = Schematic::new();
    assert_eq!(Admin::define_collections(&mut schema), Ok(()));
    assert_eq!(schema.collection_count(), 1);
    assert_eq!(schema.collection_at(0).to_string(), "khonsulabs.role");
    assert_eq!(schema.view_count(), 1);
    assert_eq!(schema.view_at(0).name.to_string(), "khonsulabs.role.by-name");
    assert_eq!(
        Admin::define_collections(&mut schema),
        Err(Error::InvalidName(String::from("khonsulabs.role")))
    );
    assert_eq!(
        Role::define_views(&mut schema),
        Err(Error::InvalidName(String::from("khonsulabs.role.by-name")))
    );
    assert_eq!(schema.collection_count(), 1);
    assert_eq!(schema.view_count(), 1);
    assert!(Database::<Admin>::new(String::from("admin")).is_ok());
}
