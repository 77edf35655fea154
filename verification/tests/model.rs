use std::collections::BTreeMap;

use bonsaidb::connection::{AccessPolicy, Bound, QueryKey, Range, Sort};
use bonsaidb::database::Database;
use bonsaidb::document::{DocumentId, Header, Revision};
use bonsaidb::keyvalue::Timestamp;
use bonsaidb::test_util::Basic;
use bonsaidb::transaction::{Command, Operation, Transaction};
use bonsaidb::tree::{Swap, Tree};

struct Random(u64);

impl Random {
    fn next(&mut self, below: u64) -> u64 {
        self.0 = self.0.wrapping_mul(6364136223846793005).wrapping_add(1442695040888963407);
        (self.0 >> 33) % below
    }

    fn key(&mut self) -> Vec<u8> {
        let length = self.next(4);
        (0..length).map(|_| self.next(3) as u8).collect()
    }
}

#[test]
fn a_tree_behaves_as_an_ordered_map() {
    let mut random = Random(7);
    let mut tree = Tree::new();
    let mut model: BTreeMap<Vec<u8>, Vec<u8>> = BTreeMap::new();
    for step in 0..3000u64 {
        let key = random.key();
        match random.next(5) {
            0 => {
                let value = step.to_le_bytes().to_vec();
                tree.put(&key, value.clone());
                model.insert(key, value);
            }
            1 => assert_eq!(tree.remove(&key), model.remove(&key)),
            2 => assert_eq!(tree.get(&key), model.get(&key).cloned()),
            3 => {
                let expected = if random.next(2) == 0 { model.get(&key).cloned() } else { Some(random.key()) };
                let new = if random.next(3) == 0 { None } else { Some(step.to_le_bytes().to_vec()) };
                match tree.compare_and_swap(&key, expected.as_ref(), new.clone()) {
                    Swap::Swapped => {
                        assert_eq!(model.get(&key), expected.as_ref());
                        match new {
                            Some(value) => model.insert(key, value),
                            None => model.remove(&key),
                        };
                    }
                    Swap::Conflict(current) => {
                        assert_ne!(model.get(&key), expected.as_ref());
                        assert_eq!(current.as_ref(), model.get(&key));
                    }
                }
            }
            _ => {
                let low = random.key();
                let high = random.key();
                let descending = random.next(2) == 0;
                let limit = if random.next(2) == 0 { None } else { Some(random.next(6) as u32) };
                let range = Range { start: Bound::Included(low.clone()), end: Bound::Excluded(high.clone()) };
                let mut expected: Vec<(Vec<u8>, Vec<u8>)> = model
                    .iter()
                    .filter(|(k, _)| low <= **k && **k < high)
                    .map(|(k, v)| (k.clone(), v.clone()))
                    .collect();
                if descending {
                    expected.reverse();
                }
                if let Some(limit) = limit {
                    expected.truncate(limit as usize);
                }
                assert_eq!(tree.scan(&range, descending, limit), expected);
            }
        }
        assert_eq!(tree.len(), model.len());
    }
}

#[test]
fn documents_and_views_follow_a_plain_model() {
    let mut random = Random(11);
    let mut db: Database<Basic> = Database::new(String::from("d")).unwrap();
    let mut model: BTreeMap<u64, (u64, Vec<u8>)> = BTreeMap::new();
    let mut transactions = 0u64;
    let names: Vec<&[u8]> = vec![b"a", b"b", b"cc", b"dd", b"eee", b"f", b"gg"];
    for _ in 0..600 {
        let count = 1 + random.next(3);
        let mut working = model.clone();
        let mut operations = vec![];
        let mut fails = false;
        for _ in 0..count {
            let id = random.next(8);
            let name = names[random.next(names.len() as u64) as usize].to_vec();
            let revision = if random.next(5) == 0 { 99 } else { working.get(&id).map(|d| d.0).unwrap_or(0) };
            let header = Header { id: DocumentId::from_u64(id), revision: Revision { id: revision } };
            let taken = |working: &BTreeMap<u64, (u64, Vec<u8>)>, name: &Vec<u8>| {
                working.iter().any(|(other, d)| *other != id && d.1 == *name)
            };
            let command = match random.next(3) {
                0 => {
                    if !fails {
                        if working.contains_key(&id) || taken(&working, &name) {
                            fails = true;
                        } else {
                            working.insert(id, (0, name.clone()));
                        }
                    }
                    Command::Insert { id: DocumentId::from_u64(id), contents: name }
                }
                1 => {
                    if !fails {
                        match working.get(&id) {
                            Some(d) if d.0 == revision && !taken(&working, &name) => {
                                working.insert(id, (revision + 1, name.clone()));
                            }
                            _ => fails = true,
                        }
                    }
                    Command::Update { header, contents: name }
                }
                _ => {
                    if !fails {
                        match working.get(&id) {
                            Some(d) if d.0 == revision => {
                                working.remove(&id);
                            }
                            _ => fails = true,
                        }
                    }
                    Command::Delete { header }
                }
            };
            operations.push(Operation { collection: Basic::users(), command });
        }
        let result = db
            .documents
            .apply_transaction(&Transaction { operations }, Timestamp { seconds: 0, nanos: 0 });
        assert_eq!(result.is_err(), fails);
        if !fails {
            model = working;
            transactions += 1;
        }
        assert_eq!(db.documents.last_transaction_id(), if transactions == 0 { None } else { Some(transactions) });

        let everything = Range { start: Bound::Unbounded, end: Bound::Unbounded };
        let listed = db.documents.list(&Basic::users(), &everything, Sort::Ascending, None).unwrap();
        let expected: Vec<(DocumentId, u64, Vec<u8>)> = model
            .iter()
            .map(|(id, d)| (DocumentId::from_u64(*id), d.0, d.1.clone()))
            .collect();
        let actual: Vec<(DocumentId, u64, Vec<u8>)> =
            listed.into_iter().map(|d| (d.header.id, d.header.revision.id, d.contents)).collect();
        assert_eq!(actual, expected);

        let by_name = db
            .documents
            .query(&Basic::by_name(), &None, Sort::Ascending, None, AccessPolicy::UpdateBefore)
            .unwrap();
        let mut expected: Vec<(Vec<u8>, DocumentId, u64)> = model
            .iter()
            .map(|(id, d)| (d.1.clone(), DocumentId::from_u64(*id), d.0))
            .collect();
        expected.sort_by(|a, b| (&a.0, a.1.as_bytes()).cmp(&(&b.0, b.1.as_bytes())));
        let actual: Vec<(Vec<u8>, DocumentId, u64)> =
            by_name.into_iter().map(|e| (e.key, e.source.id, e.source.revision.id)).collect();
        assert_eq!(actual, expected);

        let length = 1 + random.next(3);
        let by_length = db
            .documents
            .query(
                &Basic::by_length(),
                &Some(QueryKey::Matches(DocumentId::from_u64(length).as_bytes().to_vec())),
                Sort::Descending,
                None,
                AccessPolicy::UpdateBefore,
            )
            .unwrap();
        let mut expected: Vec<(DocumentId, Vec<u8>)> = model
            .iter()
            .filter(|(_, d)| d.1.len() as u64 == length)
            .map(|(id, d)| (DocumentId::from_u64(*id), d.1.clone()))
            .collect();
        expected.reverse();
        let actual: Vec<(DocumentId, Vec<u8>)> =
            by_length.into_iter().map(|e| (e.source.id, e.value)).collect();
        assert_eq!(actual, expected);
    }
    assert!(transactions > 50);
}
