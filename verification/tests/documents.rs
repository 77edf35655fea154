use bonsaidb::connection::{AccessPolicy, Bound, QueryKey, Range, Sort};
use bonsaidb::database::Database;
use bonsaidb::document::{DocumentId, Header, Revision};
use bonsaidb::error::Error;
use bonsaidb::keyvalue::Timestamp;
use bonsaidb::test_util::Basic;
use bonsaidb::transaction::{Command, Operation, OperationResult, Transaction};

fn now() -> Timestamp {
    Timestamp { seconds: 1, nanos: 0 }
}

fn insert(id: u64, name: &str) -> Operation {
    Operation {
        collection: Basic::users(),
        command: Command::Insert { id: DocumentId::from_u64(id), contents: name.as_bytes().to_vec() },
    }
}

fn database() -> Database<Basic> {
    Database::new(String::from("d")).unwrap()
}

#[test]
fn transaction_and_query() {
    let mut db = database();
    let results = db
        .documents
        .apply_transaction(&Transaction { operations: vec![insert(1, "Ada")] }, now())
        .unwrap();
    assert_eq!(
        results,
        vec![OperationResult::DocumentUpdated {
            collection: Basic::users(),
            header: Header { id: DocumentId::from_u64(1), revision: Revision { id: 0 } },
        }]
    );
    let found = db
        .documents
        .query(
            &Basic::by_name(),
            &Some(QueryKey::Matches(b"Ada".to_vec())),
            Sort::Ascending,
            None,
            AccessPolicy::UpdateBefore,
        )
        .unwrap();
    assert_eq!(found.len(), 1);
    assert_eq!(found[0].source.id, DocumentId::from_u64(1));
    assert_eq!(found[0].key, b"Ada".to_vec());

    let second = db
        .documents
        .apply_transaction(&Transaction { operations: vec![insert(2, "Ada")] }, now());
    assert_eq!(
        second,
        Err(Error::UniqueKeyViolation(String::from("khonsulabs.users.by-name"), b"Ada".to_vec()))
    );
    assert_eq!(db.documents.last_transaction_id(), Some(1));
    assert_eq!(db.documents.get(&Basic::users(), &DocumentId::from_u64(2)), None);
}

#[test]
fn transactional_rollback() {
    let mut db = database();
    assert_eq!(db.documents.last_transaction_id(), None);
    let r = db
        .documents
        .apply_transaction(&Transaction { operations: vec![insert(1, "Ada"), insert(1, "Bob")] }, now());
    assert_eq!(
        r,
        Err(Error::DocumentConflict(
            String::from("khonsulabs.users"),
            DocumentId::from_u64(1).as_bytes().to_vec()
        ))
    );
    assert_eq!(db.documents.get(&Basic::users(), &DocumentId::from_u64(1)), None);
    assert_eq!(db.documents.last_transaction_id(), None);
    let all = db
        .documents
        .query(&Basic::by_name(), &None, Sort::Ascending, None, AccessPolicy::NoUpdate)
        .unwrap();
    assert!(all.is_empty());
}

#[test]
fn every_transaction_takes_the_next_id() {
    let mut db = database();
    for i in 1..=5u64 {
        let name = format!("user-{}", i);
        db.documents
            .apply_transaction(&Transaction { operations: vec![insert(i, &name)] }, now())
            .unwrap();
        assert_eq!(db.documents.last_transaction_id(), Some(i));
    }
    let listed = db.documents.list_executed(Some(3), Some(2));
    assert_eq!(listed.iter().map(|e| e.id).collect::<Vec<u64>>(), vec![3, 4]);
}

#[test]
fn update_and_delete_follow_in_the_views() {
    let mut db = database();
    db.documents
        .apply_transaction(&Transaction { operations: vec![insert(1, "Ada"), insert(2, "Bob")] }, now())
        .unwrap();
    let update = Operation {
        collection: Basic::users(),
        command: Command::Update {
            header: Header { id: DocumentId::from_u64(1), revision: Revision { id: 0 } },
            contents: b"Eve".to_vec(),
        },
    };
    let results = db
        .documents
        .apply_transaction(&Transaction { operations: vec![update] }, now())
        .unwrap();
    assert_eq!(
        results,
        vec![OperationResult::DocumentUpdated {
            collection: Basic::users(),
            header: Header { id: DocumentId::from_u64(1), revision: Revision { id: 1 } },
        }]
    );
    let by = |db: &Database<Basic>, name: &[u8]| {
        db.documents
            .query(
                &Basic::by_name(),
                &Some(QueryKey::Matches(name.to_vec())),
                Sort::Ascending,
                None,
                AccessPolicy::UpdateBefore,
            )
            .unwrap()
    };
    assert!(by(&db, b"Ada").is_empty());
    assert_eq!(by(&db, b"Eve").len(), 1);
    assert_eq!(by(&db, b"Eve")[0].source.revision, Revision { id: 1 });

    let stale = Operation {
        collection: Basic::users(),
        command: Command::Delete {
            header: Header { id: DocumentId::from_u64(1), revision: Revision { id: 0 } },
        },
    };
    assert_eq!(
        db.documents.apply_transaction(&Transaction { operations: vec![stale] }, now()),
        Err(Error::DocumentConflict(
            String::from("khonsulabs.users"),
            DocumentId::from_u64(1).as_bytes().to_vec()
        ))
    );
    let delete = Operation {
        collection: Basic::users(),
        command: Command::Delete {
            header: Header { id: DocumentId::from_u64(1), revision: Revision { id: 1 } },
        },
    };
    assert_eq!(
        db.documents.apply_transaction(&Transaction { operations: vec![delete] }, now()),
        Ok(vec![OperationResult::DocumentDeleted {
            collection: Basic::users(),
            id: DocumentId::from_u64(1)
        }])
    );
    assert!(by(&db, b"Eve").is_empty());
    assert_eq!(by(&db, b"Bob").len(), 1);
}

#[test]
fn updating_or_deleting_what_is_not_there_fails() {
    let mut db = database();
    let header = || Header { id: DocumentId::from_u64(9), revision: Revision { id: 0 } };
    let missing = Err(Error::DocumentNotFound(
        String::from("khonsulabs.users"),
        DocumentId::from_u64(9).as_bytes().to_vec(),
    ));
    let update = Operation {
        collection: Basic::users(),
        command: Command::Update { header: header(), contents: vec![] },
    };
    assert_eq!(db.documents.apply_transaction(&Transaction { operations: vec![update] }, now()), missing);
    let delete = Operation { collection: Basic::users(), command: Command::Delete { header: header() } };
    assert_eq!(
        db.documents.apply_transaction(&Transaction { operations: vec![insert(1, "Ada"), delete] }, now()),
        missing
    );
    assert_eq!(db.documents.get(&Basic::users(), &DocumentId::from_u64(1)), None);
    assert_eq!(db.documents.last_transaction_id(), None);
}

#[test]
fn list_and_count_follow_range_order_and_limit() {
    let mut db = database();
    let ops = (1..=5u64).map(|i| insert(i, &format!("n{}", i))).collect();
    db.documents.apply_transaction(&Transaction { operations: ops }, now()).unwrap();
    let range = Range {
        start: Bound::Included(DocumentId::from_u64(2)),
        end: Bound::Excluded(DocumentId::from_u64(5)),
    };
    let ids = |docs: Vec<bonsaidb::document::OwnedDocument>| {
        docs.into_iter().map(|d| d.header.id).collect::<Vec<DocumentId>>()
    };
    let ascending = db.documents.list(&Basic::users(), &range, Sort::Ascending, None).unwrap();
    assert_eq!(
        ids(ascending),
        vec![DocumentId::from_u64(2), DocumentId::from_u64(3), DocumentId::from_u64(4)]
    );
    let descending = db.documents.list(&Basic::users(), &range, Sort::Descending, Some(2)).unwrap();
    assert_eq!(ids(descending), vec![DocumentId::from_u64(4), DocumentId::from_u64(3)]);
    assert_eq!(db.documents.count(&Basic::users(), &range), Ok(3));
    let everything = Range { start: Bound::Unbounded, end: Bound::Unbounded };
    assert_eq!(db.documents.count(&Basic::users(), &everything), Ok(5));
}

#[test]
fn query_with_docs_joins_entries_with_their_documents() {
    let mut db = database();
    db.documents
        .apply_transaction(&Transaction { operations: vec![insert(1, "Ada"), insert(2, "Bob"), insert(3, "Eve")] }, now())
        .unwrap();
    let found = db
        .documents
        .query_with_docs(
            &Basic::by_length(),
            &Some(QueryKey::Matches(DocumentId::from_u64(3).as_bytes().to_vec())),
            Sort::Descending,
            None,
            AccessPolicy::UpdateBefore,
        )
        .unwrap();
    assert_eq!(found.mappings.len(), 3);
    assert_eq!(found.documents.len(), 3);
    for (mapping, document) in found.mappings.iter().zip(found.documents.iter()) {
        assert_eq!(mapping.source, document.header);
        assert_eq!(
            Some(document.clone()),
            db.documents.get(&Basic::users(), &mapping.source.id)
        );
        assert_eq!(mapping.value, document.contents);
    }
    assert_eq!(found.mappings[0].source.id, DocumentId::from_u64(3));
    let reduced = db
        .documents
        .reduce(&Basic::by_length(), &None, AccessPolicy::UpdateBefore)
        .unwrap();
    assert_eq!(reduced, 3u64.to_le_bytes().to_vec());
}

#[test]
fn unknown_collection_and_view_are_reported() {
    let mut db = database();
    let elsewhere = bonsaidb::schema::CollectionName::new("khonsulabs", "nowhere").unwrap();
    let op = Operation {
        collection: elsewhere.clone(),
        command: Command::Insert { id: DocumentId::from_u64(1), contents: vec![] },
    };
    assert_eq!(
        db.documents.apply_transaction(&Transaction { operations: vec![op] }, now()),
        Err(Error::CollectionNotFound)
    );
    let view = bonsaidb::schema::ViewName {
        collection: elsewhere,
        name: bonsaidb::schema::Name::from("by-name"),
    };
    assert_eq!(
        db.documents.query(&view, &None, Sort::Ascending, None, AccessPolicy::UpdateBefore),
        Err(Error::ViewNotFound)
    );
    assert_eq!(db.documents.compact_collection(&Basic::users()), Ok(()));
    assert_eq!(db.documents.compact_collection(&view.collection), Err(Error::CollectionNotFound));
}

#[test]
fn the_log_is_numbered_without_a_gap() {
    let mut db = database();
    assert_eq!(db.documents.last_transaction_id(), None);
    assert!(db.documents.list_executed(None, None).is_empty());
    for i in 1..=6u64 {
        let name = format!("user-{}", i);
        db.documents
            .apply_transaction(&Transaction { operations: vec![insert(i, &name)] }, now())
            .unwrap();
    }
    // a transaction that fails takes no id
    assert!(db
        .documents
        .apply_transaction(&Transaction { operations: vec![insert(1, "again")] }, now())
        .is_err());
    assert_eq!(db.documents.last_transaction_id(), Some(6));
    let ids = |found: Vec<bonsaidb::transaction::Executed>| -> Vec<u64> {
        found.into_iter().map(|e| e.id).collect()
    };
    assert_eq!(ids(db.documents.list_executed(None, None)), vec![1, 2, 3, 4, 5, 6]);
    assert_eq!(ids(db.documents.list_executed(Some(0), None)), vec![1, 2, 3, 4, 5, 6]);
    assert_eq!(ids(db.documents.list_executed(Some(1), Some(2))), vec![1, 2]);
    assert_eq!(ids(db.documents.list_executed(Some(5), Some(10))), vec![5, 6]);
    assert_eq!(ids(db.documents.list_executed(Some(6), None)), vec![6]);
    assert!(db.documents.list_executed(Some(7), None).is_empty());
    assert!(db.documents.list_executed(Some(u64::MAX), None).is_empty());
    assert!(db.documents.list_executed(None, Some(0)).is_empty());
}
