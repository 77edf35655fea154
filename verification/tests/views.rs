use bonsaidb::connection::{AccessPolicy, Bound, QueryKey, Range, Sort};
use bonsaidb::database::Database;
use bonsaidb::document::DocumentId;
use bonsaidb::error::Error;
use bonsaidb::keyvalue::Timestamp;
use bonsaidb::schema::view::MappedSerializedValue;
use bonsaidb::test_util::Basic;
use bonsaidb::transaction::{Command, Operation, Transaction};

fn database_with(names: &[&str]) -> Database<Basic> {
    let mut db: Database<Basic> = Database::new(String::from("d")).unwrap();
    let operations = names
        .iter()
        .enumerate()
        .map(|(i, name)| Operation {
            collection: Basic::users(),
            command: Command::Insert {
                id: DocumentId::from_u64(i as u64 + 1),
                contents: name.as_bytes().to_vec(),
            },
        })
        .collect();
    db.documents
        .apply_transaction(&Transaction { operations }, Timestamp { seconds: 5, nanos: 0 })
        .unwrap();
    db
}

fn length_key(n: u64) -> Vec<u8> {
    DocumentId::from_u64(n).as_bytes().to_vec()
}

#[test]
fn reduce_grouped_reduces_once_per_key() {
    let db = database_with(&["Ada", "Bob", "Grace", "Eve", "Al"]);
    let grouped = db
        .documents
        .reduce_grouped(&Basic::by_length(), &None, AccessPolicy::UpdateBefore)
        .unwrap();
    assert_eq!(
        grouped,
        vec![
            MappedSerializedValue { key: length_key(2), value: 1u64.to_le_bytes().to_vec() },
            MappedSerializedValue { key: length_key(3), value: 3u64.to_le_bytes().to_vec() },
            MappedSerializedValue { key: length_key(5), value: 1u64.to_le_bytes().to_vec() },
        ]
    );
}

#[test]
fn query_filters_by_range_and_by_list() {
    let db = database_with(&["Ada", "Bob", "Grace", "Eve", "Al"]);
    let range = QueryKey::Range(Range {
        start: Bound::Included(length_key(3)),
        end: Bound::Unbounded,
    });
    let found = db
        .documents
        .query(&Basic::by_length(), &Some(range), Sort::Ascending, None, AccessPolicy::NoUpdate)
        .unwrap();
    let names: Vec<Vec<u8>> = found.iter().map(|e| e.value.clone()).collect();
    assert_eq!(names, vec![b"Ada".to_vec(), b"Bob".to_vec(), b"Eve".to_vec(), b"Grace".to_vec()]);
    let listed = QueryKey::Multiple(vec![length_key(5), length_key(2), length_key(9)]);
    let found = db
        .documents
        .query(&Basic::by_length(), &Some(listed), Sort::Descending, Some(5), AccessPolicy::NoUpdate)
        .unwrap();
    let names: Vec<Vec<u8>> = found.iter().map(|e| e.value.clone()).collect();
    assert_eq!(names, vec![b"Grace".to_vec(), b"Al".to_vec()]);
}

#[test]
fn a_unique_view_has_one_document_for_each_key() {
    let db = database_with(&["Ada", "Bob", "Grace"]);
    let found = db
        .documents
        .query(&Basic::by_name(), &None, Sort::Ascending, None, AccessPolicy::NoUpdate)
        .unwrap();
    assert_eq!(found.len(), 3);
    for a in &found {
        for b in &found {
            if a.key == b.key {
                assert_eq!(a.source.id, b.source.id);
            }
        }
    }
}

#[test]
fn delete_docs_deletes_the_documents_of_the_matching_entries() {
    let mut db = database_with(&["Ada", "Bob", "Grace", "Eve", "Al"]);
    let deleted = db.documents.delete_docs(
        &Basic::by_length(),
        &Some(QueryKey::Matches(length_key(3))),
        AccessPolicy::UpdateBefore,
        Timestamp { seconds: 6, nanos: 0 },
    );
    assert_eq!(deleted, Ok(3));
    assert_eq!(db.documents.last_transaction_id(), Some(2));
    let everything = Range { start: Bound::Unbounded, end: Bound::Unbounded };
    assert_eq!(db.documents.count(&Basic::users(), &everything), Ok(2));
    assert_eq!(db.documents.get(&Basic::users(), &DocumentId::from_u64(1)), None);
    assert!(db.documents.get(&Basic::users(), &DocumentId::from_u64(3)).is_some());
    let left = db
        .documents
        .query(&Basic::by_name(), &None, Sort::Ascending, None, AccessPolicy::NoUpdate)
        .unwrap();
    let names: Vec<Vec<u8>> = left.iter().map(|e| e.key.clone()).collect();
    assert_eq!(names, vec![b"Al".to_vec(), b"Grace".to_vec()]);
    let nothing = db.documents.delete_docs(
        &Basic::by_length(),
        &Some(QueryKey::Matches(length_key(3))),
        AccessPolicy::UpdateBefore,
        Timestamp { seconds: 7, nanos: 0 },
    );
    assert_eq!(nothing, Ok(0));
    let missing = bonsaidb::schema::ViewName {
        collection: Basic::users(),
        name: bonsaidb::schema::Name::from("by-nothing"),
    };
    assert_eq!(
        db.documents.delete_docs(&missing, &None, AccessPolicy::UpdateBefore, Timestamp { seconds: 8, nanos: 0 }),
        Err(Error::ViewNotFound)
    );
}

#[test]
fn get_multiple_passes_over_missing_ids() {
    let db = database_with(&["Ada", "Bob", "Grace"]);
    let found = db.documents.get_multiple(
        &Basic::users(),
        &vec![DocumentId::from_u64(3), DocumentId::from_u64(9), DocumentId::from_u64(1)],
    );
    let contents: Vec<Vec<u8>> = found.into_iter().map(|d| d.contents).collect();
    assert_eq!(contents, vec![b"Grace".to_vec(), b"Ada".to_vec()]);
}
