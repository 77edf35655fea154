use bonsaidb::database::kv::{
    attempt_increment_operation, attempt_numeric_operation, execute_decrement_operation, execute_delete_operation,
    execute_get_operation, execute_increment_operation, execute_numeric_operation,
    execute_set_operation, expire_keys, fetch_and_update_no_copy, key_tree, next_expiration,
    Attempt, Entry, TreeKey,
};
use bonsaidb::database::Database;
use bonsaidb::error::Error;
use bonsaidb::keyvalue::numeric::{decrement, increment, Numeric};
use bonsaidb::keyvalue::{Command, KeyCheck, KeyOperation, KeyStatus, Output, Timestamp, Value};
use bonsaidb::storage::kv::ExpirationUpdate;
use bonsaidb::storage::Storage;
use bonsaidb::test_util::Basic;

fn database() -> Database<Basic> {
    Database::new(String::from("d")).unwrap()
}

fn at(seconds: u64) -> Timestamp {
    Timestamp { seconds, nanos: 0 }
}

fn set(db: &mut Database<Basic>, key: &str, value: Value, expiration: Option<Timestamp>) -> Output {
    execute_set_operation(&key_tree("d", None), String::from(key), value, expiration, false, None, false, db)
        .unwrap()
}

fn get(db: &mut Database<Basic>, key: &str) -> Result<Output, Error> {
    execute_get_operation(&key_tree("d", None), key, false, db)
}

#[test]
fn key_tree_joins_database_and_namespace() {
    assert_eq!(key_tree("db", Some(String::from("ns"))), "db.kv.ns");
    assert_eq!(key_tree("db", None), "db.kv.");
    assert_eq!(key_tree("", Some(String::new())), ".kv.");
}

#[test]
fn tree_key_new_names_the_tree() {
    let key = TreeKey::new("db", "ns", String::from("k"));
    assert_eq!(key.tree, "db.kv.ns");
    assert_eq!(key.key, "k");
    assert_eq!(key.tree, key_tree("db", Some(String::from("ns"))));
    assert_eq!(key.clone(), key);
}

#[test]
fn set_then_get_returns_the_value() {
    let mut db = database();
    assert_eq!(set(&mut db, "k", Value::Bytes(vec![1, 2, 3]), None), Output::Status(KeyStatus::Inserted));
    assert_eq!(get(&mut db, "k"), Ok(Output::Value(Some(Value::Bytes(vec![1, 2, 3])))));
    assert_eq!(
        set(&mut db, "k", Value::Numeric(Numeric::Integer(-4)), None),
        Output::Status(KeyStatus::Updated)
    );
    assert_eq!(get(&mut db, "k"), Ok(Output::Value(Some(Value::Numeric(Numeric::Integer(-4))))));
    assert_eq!(
        set(&mut db, "f", Value::Numeric(Numeric::Float(1.5f64.to_bits())), None),
        Output::Status(KeyStatus::Inserted)
    );
    assert_eq!(
        get(&mut db, "f"),
        Ok(Output::Value(Some(Value::Numeric(Numeric::Float(1.5f64.to_bits())))))
    );
    assert_eq!(get(&mut db, "other"), Ok(Output::Value(None)));
}

#[test]
fn set_honours_its_check() {
    let mut db = database();
    let tree = key_tree("d", None);
    let mut run = |db: &mut Database<Basic>, check: Option<KeyCheck>, v: u8| {
        execute_set_operation(&tree, String::from("k"), Value::Bytes(vec![v]), None, false, check, false, db)
    };
    assert_eq!(run(&mut db, Some(KeyCheck::OnlyIfPresent), 1), Ok(Output::Status(KeyStatus::NotChanged)));
    assert_eq!(get(&mut db, "k"), Ok(Output::Value(None)));
    assert_eq!(run(&mut db, Some(KeyCheck::OnlyIfVacant), 2), Ok(Output::Status(KeyStatus::Inserted)));
    assert_eq!(run(&mut db, Some(KeyCheck::OnlyIfVacant), 3), Ok(Output::Status(KeyStatus::NotChanged)));
    assert_eq!(get(&mut db, "k"), Ok(Output::Value(Some(Value::Bytes(vec![2])))));
    assert_eq!(run(&mut db, Some(KeyCheck::OnlyIfPresent), 4), Ok(Output::Status(KeyStatus::Updated)));
    assert_eq!(get(&mut db, "k"), Ok(Output::Value(Some(Value::Bytes(vec![4])))));
}

#[test]
fn set_returns_the_previous_value_in_place_of_the_status() {
    let mut db = database();
    let tree = key_tree("d", None);
    let mut run = |db: &mut Database<Basic>, v: u8, check: Option<KeyCheck>| {
        execute_set_operation(&tree, String::from("k"), Value::Bytes(vec![v]), None, false, check, true, db)
    };
    assert_eq!(run(&mut db, 1, None), Ok(Output::Value(None)));
    assert_eq!(run(&mut db, 2, None), Ok(Output::Value(Some(Value::Bytes(vec![1])))));
    assert_eq!(
        run(&mut db, 3, Some(KeyCheck::OnlyIfVacant)),
        Ok(Output::Value(Some(Value::Bytes(vec![2]))))
    );
    assert_eq!(get(&mut db, "k"), Ok(Output::Value(Some(Value::Bytes(vec![2])))));
    assert_eq!(get(&mut db, "other"), Ok(Output::Value(None)));
    let absent = execute_set_operation(
        &tree,
        String::from("other"),
        Value::Bytes(vec![9]),
        None,
        false,
        Some(KeyCheck::OnlyIfPresent),
        true,
        &mut db,
    );
    assert_eq!(absent, Ok(Output::Value(None)));
    assert_eq!(get(&mut db, "other"), Ok(Output::Value(None)));
}

#[test]
fn set_keeps_the_existing_expiration_when_asked() {
    let mut db = database();
    let tree = key_tree("d", None);
    set(&mut db, "k", Value::Bytes(vec![1]), Some(at(10)));
    assert_eq!(next_expiration(&db), Some(at(10)));
    execute_set_operation(&tree, String::from("k"), Value::Bytes(vec![2]), Some(at(99)), true, None, false, &mut db)
        .unwrap();
    assert_eq!(next_expiration(&db), Some(at(10)));
    execute_set_operation(&tree, String::from("k"), Value::Bytes(vec![3]), Some(at(99)), false, None, false, &mut db)
        .unwrap();
    assert_eq!(next_expiration(&db), Some(at(99)));
    execute_set_operation(&tree, String::from("k"), Value::Bytes(vec![4]), None, false, None, false, &mut db)
        .unwrap();
    assert_eq!(next_expiration(&db), None);
    execute_set_operation(&tree, String::from("new"), Value::Bytes(vec![5]), Some(at(7)), true, None, false, &mut db)
        .unwrap();
    assert_eq!(next_expiration(&db), Some(at(7)));
}

#[test]
fn get_with_delete_removes_the_key() {
    let mut db = database();
    let tree = key_tree("d", None);
    set(&mut db, "k", Value::Bytes(vec![1]), Some(at(10)));
    assert_eq!(
        execute_get_operation(&tree, "k", true, &mut db),
        Ok(Output::Value(Some(Value::Bytes(vec![1]))))
    );
    assert_eq!(get(&mut db, "k"), Ok(Output::Value(None)));
    assert_eq!(next_expiration(&db), None);
    assert_eq!(execute_get_operation(&tree, "k", true, &mut db), Ok(Output::Value(None)));
}

#[test]
fn delete_reports_whether_the_key_had_a_value() {
    let mut db = database();
    let tree = key_tree("d", None);
    set(&mut db, "k", Value::Bytes(vec![1]), Some(at(10)));
    assert_eq!(
        execute_delete_operation(&tree, String::from("k"), &mut db),
        Ok(Output::Status(KeyStatus::Deleted))
    );
    assert_eq!(next_expiration(&db), None);
    assert_eq!(
        execute_delete_operation(&tree, String::from("k"), &mut db),
        Ok(Output::Status(KeyStatus::NotChanged))
    );
}

#[test]
fn increment_from_absent_counts_from_unsigned_zero() {
    let mut db = database();
    let tree = key_tree("d", None);
    let r = execute_increment_operation(&tree, "counter", &mut db, &Numeric::UnsignedInteger(1), false);
    assert_eq!(r, Ok(Output::Value(Some(Value::Numeric(Numeric::UnsignedInteger(1))))));
    let r = execute_decrement_operation(&tree, "counter", &mut db, &Numeric::Integer(5), false);
    assert_eq!(r, Ok(Output::Value(Some(Value::Numeric(Numeric::Integer(-4))))));
    let r = execute_increment_operation(&tree, "counter", &mut db, &Numeric::UnsignedInteger(0), true);
    assert_eq!(r, Ok(Output::Value(Some(Value::Numeric(Numeric::UnsignedInteger(0))))));
    assert_eq!(get(&mut db, "counter"), Ok(Output::Value(Some(Value::Numeric(Numeric::UnsignedInteger(0))))));
}

#[test]
fn increment_then_its_opposite_returns_the_original() {
    let mut db = database();
    let tree = key_tree("d", None);
    set(&mut db, "n", Value::Numeric(Numeric::Integer(40)), None);
    assert_eq!(
        execute_increment_operation(&tree, "n", &mut db, &Numeric::Integer(2), false),
        Ok(Output::Value(Some(Value::Numeric(Numeric::Integer(42)))))
    );
    assert_eq!(
        execute_increment_operation(&tree, "n", &mut db, &Numeric::Integer(-2), false),
        Ok(Output::Value(Some(Value::Numeric(Numeric::Integer(40)))))
    );
    assert_eq!(get(&mut db, "n"), Ok(Output::Value(Some(Value::Numeric(Numeric::Integer(40))))));
}

#[test]
fn arithmetic_keeps_the_expiration_of_the_entry() {
    let mut db = database();
    let tree = key_tree("d", None);
    set(&mut db, "n", Value::Numeric(Numeric::UnsignedInteger(1)), Some(at(30)));
    execute_increment_operation(&tree, "n", &mut db, &Numeric::UnsignedInteger(1), false).unwrap();
    assert_eq!(next_expiration(&db), Some(at(30)));
    assert_eq!(expire_keys(&mut db, at(30)).len(), 1);
    assert_eq!(get(&mut db, "n"), Ok(Output::Value(None)));
}

#[test]
fn arithmetic_fails_on_bytes_and_leaves_floating_point_to_the_caller() {
    let mut db = database();
    let tree = key_tree("d", None);
    set(&mut db, "b", Value::Bytes(vec![1]), None);
    assert_eq!(
        execute_increment_operation(&tree, "b", &mut db, &Numeric::Integer(1), false),
        Err(Error::Database(String::from("type of stored `Value` is not `Numeric`")))
    );
    assert_eq!(get(&mut db, "b"), Ok(Output::Value(Some(Value::Bytes(vec![1])))));
    set(&mut db, "f", Value::Numeric(Numeric::Float(2.0f64.to_bits())), None);
    assert_eq!(
        execute_increment_operation(&tree, "f", &mut db, &Numeric::Float(1.0f64.to_bits()), false),
        Err(Error::Other(String::from("floating-point arithmetic is left to the caller")))
    );
    assert_eq!(
        get(&mut db, "f"),
        Ok(Output::Value(Some(Value::Numeric(Numeric::Float(2.0f64.to_bits())))))
    );
    assert!(matches!(
        execute_increment_operation(&tree, "n", &mut db, &Numeric::Float(2.0f64.to_bits()), false),
        Err(Error::Other(_))
    ));
    assert_eq!(get(&mut db, "n"), Ok(Output::Value(None)));
    set(&mut db, "g", Value::Numeric(Numeric::Float(2.9f64.to_bits())), None);
    assert_eq!(
        execute_increment_operation(&tree, "g", &mut db, &Numeric::Integer(1), false),
        Ok(Output::Value(Some(Value::Numeric(Numeric::Integer(3)))))
    );
    let float_add = |existing: &Numeric, amount: &Numeric, _saturating: bool| match (existing, amount) {
        (Numeric::Float(a), Numeric::Float(b)) => {
            Some(Numeric::Float((f64::from_bits(*a) + f64::from_bits(*b)).to_bits()))
        }
        _ => None,
    };
    assert_eq!(
        execute_numeric_operation(&tree, "f", &mut db, &Numeric::Float(0.5f64.to_bits()), false, float_add),
        Ok(Output::Value(Some(Value::Numeric(Numeric::Float(2.5f64.to_bits())))))
    );
}

#[test]
fn a_key_that_holds_no_entry_is_reported() {
    let mut db = database();
    let tree = key_tree("d", None);
    db.storage.compare_and_swap(&tree, b"k", None, Some(vec![9, 9, 9]));
    let undecodable = Err(Error::Database(String::from("the stored entry cannot be decoded")));
    assert_eq!(get(&mut db, "k"), undecodable);
    assert_eq!(
        execute_increment_operation(&tree, "k", &mut db, &Numeric::Integer(1), false),
        undecodable
    );
    assert_eq!(
        execute_set_operation(&tree, String::from("k"), Value::Bytes(vec![1]), None, true, None, true, &mut db),
        Ok(Output::Value(None))
    );
    assert_eq!(get(&mut db, "k"), Ok(Output::Value(Some(Value::Bytes(vec![1])))));
}

#[test]
fn increment_and_decrement_wrap_or_saturate() {
    assert_eq!(
        increment(&Numeric::Integer(i64::MAX), &Numeric::Integer(1), false),
        Some(Numeric::Integer(i64::MIN))
    );
    assert_eq!(
        increment(&Numeric::Integer(i64::MAX), &Numeric::Integer(1), true),
        Some(Numeric::Integer(i64::MAX))
    );
    assert_eq!(
        increment(&Numeric::Integer(i64::MIN), &Numeric::Integer(-1), true),
        Some(Numeric::Integer(i64::MIN))
    );
    assert_eq!(
        decrement(&Numeric::Integer(i64::MIN), &Numeric::Integer(1), false),
        Some(Numeric::Integer(i64::MAX))
    );
    assert_eq!(
        decrement(&Numeric::Integer(i64::MAX), &Numeric::Integer(-1), true),
        Some(Numeric::Integer(i64::MAX))
    );
    assert_eq!(
        decrement(&Numeric::UnsignedInteger(0), &Numeric::UnsignedInteger(1), false),
        Some(Numeric::UnsignedInteger(u64::MAX))
    );
    assert_eq!(
        decrement(&Numeric::UnsignedInteger(0), &Numeric::UnsignedInteger(1), true),
        Some(Numeric::UnsignedInteger(0))
    );
    assert_eq!(
        increment(&Numeric::UnsignedInteger(u64::MAX), &Numeric::UnsignedInteger(2), false),
        Some(Numeric::UnsignedInteger(1))
    );
    assert_eq!(
        increment(&Numeric::UnsignedInteger(u64::MAX), &Numeric::UnsignedInteger(2), true),
        Some(Numeric::UnsignedInteger(u64::MAX))
    );
}

#[test]
fn the_result_has_the_kind_of_the_amount() {
    assert_eq!(
        increment(&Numeric::UnsignedInteger(u64::MAX), &Numeric::Integer(1), false),
        Some(Numeric::Integer(0))
    );
    assert_eq!(
        increment(&Numeric::UnsignedInteger(u64::MAX), &Numeric::Integer(1), true),
        Some(Numeric::Integer(i64::MAX))
    );
    assert_eq!(
        increment(&Numeric::Integer(-1), &Numeric::UnsignedInteger(1), false),
        Some(Numeric::UnsignedInteger(0))
    );
    assert_eq!(
        increment(&Numeric::Integer(-1), &Numeric::UnsignedInteger(1), true),
        Some(Numeric::UnsignedInteger(1))
    );
    assert_eq!(Numeric::UnsignedInteger(1 << 63).as_i64_lossy(false), i64::MIN);
    assert_eq!(Numeric::UnsignedInteger(1 << 63).as_i64_lossy(true), i64::MAX);
    assert_eq!(Numeric::Integer(-2).as_u64_lossy(false), u64::MAX - 1);
    assert_eq!(Numeric::Integer(-2).as_u64_lossy(true), 0);
    assert_eq!(
        increment(&Numeric::Float(2.75f64.to_bits()), &Numeric::Integer(1), false),
        Some(Numeric::Integer(3))
    );
    assert_eq!(
        decrement(&Numeric::Float((-2.75f64).to_bits()), &Numeric::UnsignedInteger(1), true),
        Some(Numeric::UnsignedInteger(0))
    );
    assert_eq!(increment(&Numeric::Float(0), &Numeric::Float(0), false), None);
    assert_eq!(decrement(&Numeric::Integer(1), &Numeric::Float(0), false), None);
}

#[test]
fn a_float_is_converted_as_a_cast_converts_it() {
    let mut values: Vec<f64> = vec![
        0.0,
        -0.0,
        0.5,
        -0.5,
        0.999_999_999_999_999_9,
        1.0,
        -1.0,
        1.5,
        2.5,
        -2.5,
        1e15 + 0.5,
        4_503_599_627_370_496.0,
        4_503_599_627_370_497.0,
        9_007_199_254_740_991.0,
        9_007_199_254_740_992.0,
        -9_007_199_254_740_993.0,
        9_223_372_036_854_774_784.0,
        9_223_372_036_854_775_808.0,
        -9_223_372_036_854_775_808.0,
        -9_223_372_036_854_777_856.0,
        18_446_744_073_709_549_568.0,
        18_446_744_073_709_551_616.0,
        1e19,
        1e300,
        -1e300,
        f64::MAX,
        f64::MIN,
        f64::MIN_POSITIVE,
        f64::EPSILON,
        5e-324,
        f64::INFINITY,
        f64::NEG_INFINITY,
        f64::NAN,
        -f64::NAN,
    ];
    for exponent in 0..70 {
        let power = 2f64.powi(exponent);
        values.extend([power, -power, power * 1.5, power - 1.0, power + 1.0, -(power * 1.25)]);
    }
    for value in values {
        let numeric = Numeric::Float(value.to_bits());
        for saturating in [false, true] {
            assert_eq!(numeric.as_i64_lossy(saturating), value as i64, "{} as i64", value);
            assert_eq!(numeric.as_u64_lossy(saturating), value as u64, "{} as u64", value);
        }
    }
}

#[test]
fn kv_increment_race() {
    let mut db = database();
    let tree = key_tree("d", None);
    let amount = Numeric::UnsignedInteger(1);
    let mut observed: Vec<Option<Vec<u8>>> = (0..100).map(|_| db.storage.get(&tree, b"counter")).collect();
    let mut done = vec![false; 100];
    let mut returned: Vec<u64> = Vec::new();
    let mut conflicts = 0;
    while done.iter().any(|d| !d) {
        for writer in 0..100 {
            if done[writer] {
                continue;
            }
            match attempt_increment_operation(
                &tree,
                "counter",
                &mut db,
                observed[writer].as_ref(),
                &amount,
                false,
            ) {
                Attempt::Done(r) => {
                    match r {
                        Ok(Output::Value(Some(Value::Numeric(Numeric::UnsignedInteger(v))))) => {
                            returned.push(v)
                        }
                        other => panic!("{:?}", other),
                    }
                    done[writer] = true;
                }
                Attempt::Retry(current) => {
                    conflicts += 1;
                    observed[writer] = current;
                }
            }
        }
    }
    assert!(conflicts > 0);
    assert_eq!(returned, (1..=100u64).collect::<Vec<u64>>());
    assert_eq!(
        get(&mut db, "counter"),
        Ok(Output::Value(Some(Value::Numeric(Numeric::UnsignedInteger(100)))))
    );
}

#[test]
fn an_attempt_from_a_stale_reading_is_to_be_repeated() {
    let mut db = database();
    let tree = key_tree("d", None);
    let amount = Numeric::Integer(2);
    let stale = db.storage.get(&tree, b"n");
    set(&mut db, "n", Value::Numeric(Numeric::Integer(5)), None);
    let current = match attempt_numeric_operation(&tree, "n", &mut db, stale.as_ref(), &amount, false, &decrement) {
        Attempt::Retry(current) => current,
        Attempt::Done(r) => panic!("the key had changed: {:?}", r),
    };
    assert_eq!(current, db.storage.get(&tree, b"n"));
    assert_eq!(get(&mut db, "n"), Ok(Output::Value(Some(Value::Numeric(Numeric::Integer(5))))));
    assert_eq!(
        attempt_numeric_operation(&tree, "n", &mut db, current.as_ref(), &amount, false, &decrement),
        Attempt::Done(Ok(Output::Value(Some(Value::Numeric(Numeric::Integer(3))))))
    );
}

#[test]
fn expiration() {
    let mut db = database();
    let milliseconds = |ms: u32| Timestamp { seconds: 1_000, nanos: ms * 1_000_000 };
    set(&mut db, "k", Value::Bytes(b"v".to_vec()), Some(milliseconds(200)));
    assert_eq!(next_expiration(&db), Some(milliseconds(200)));
    assert!(expire_keys(&mut db, milliseconds(100)).is_empty());
    assert_eq!(get(&mut db, "k"), Ok(Output::Value(Some(Value::Bytes(b"v".to_vec())))));
    let expired = expire_keys(&mut db, milliseconds(500));
    assert_eq!(expired, vec![TreeKey { tree: key_tree("d", None), key: String::from("k") }]);
    assert_eq!(get(&mut db, "k"), Ok(Output::Value(None)));
    assert_eq!(next_expiration(&db), None);
}

#[test]
fn expiry_takes_the_keys_that_are_due_and_no_others() {
    let mut db = database();
    set(&mut db, "a", Value::Bytes(vec![1]), Some(at(10)));
    set(&mut db, "b", Value::Bytes(vec![2]), Some(at(20)));
    set(&mut db, "c", Value::Bytes(vec![3]), Some(at(30)));
    set(&mut db, "d", Value::Bytes(vec![4]), None);
    assert_eq!(next_expiration(&db), Some(at(10)));
    let mut expired: Vec<String> = expire_keys(&mut db, at(20)).into_iter().map(|k| k.key).collect();
    expired.sort();
    assert_eq!(expired, vec![String::from("a"), String::from("b")]);
    assert_eq!(get(&mut db, "a"), Ok(Output::Value(None)));
    assert_eq!(get(&mut db, "b"), Ok(Output::Value(None)));
    assert_eq!(get(&mut db, "c"), Ok(Output::Value(Some(Value::Bytes(vec![3])))));
    assert_eq!(get(&mut db, "d"), Ok(Output::Value(Some(Value::Bytes(vec![4])))));
    assert_eq!(next_expiration(&db), Some(at(30)));
}

#[test]
fn key_operations_are_dispatched_by_their_command() {
    let mut db = database();
    let op = |command: Command| KeyOperation {
        namespace: Some(String::from("ns")),
        key: String::from("k"),
        command,
    };
    assert_eq!(
        db.execute_key_operation(op(Command::SetKey {
            value: Value::Numeric(Numeric::UnsignedInteger(7)),
            expiration: None,
            keep_existing_expiration: false,
            check: None,
            return_previous_value: false,
        })),
        Ok(Output::Status(KeyStatus::Inserted))
    );
    assert_eq!(
        db.execute_key_operation(op(Command::Increment {
            amount: Numeric::UnsignedInteger(3),
            saturating: false
        })),
        Ok(Output::Value(Some(Value::Numeric(Numeric::UnsignedInteger(10)))))
    );
    assert_eq!(
        db.execute_key_operation(op(Command::Decrement {
            amount: Numeric::UnsignedInteger(11),
            saturating: true
        })),
        Ok(Output::Value(Some(Value::Numeric(Numeric::UnsignedInteger(0)))))
    );
    assert_eq!(
        db.execute_key_operation(op(Command::Get { delete: false })),
        Ok(Output::Value(Some(Value::Numeric(Numeric::UnsignedInteger(0)))))
    );
    assert_eq!(
        execute_get_operation(&key_tree("d", Some(String::from("ns"))), "k", false, &mut db),
        Ok(Output::Value(Some(Value::Numeric(Numeric::UnsignedInteger(0)))))
    );
    assert_eq!(
        execute_get_operation(&key_tree("d", None), "k", false, &mut db),
        Ok(Output::Value(None))
    );
    assert_eq!(db.execute_key_operation(op(Command::Delete)), Ok(Output::Status(KeyStatus::Deleted)));
    assert_eq!(db.execute_key_operation(op(Command::Get { delete: true })), Ok(Output::Value(None)));
}

#[test]
fn fetch_and_update_returns_what_the_key_held() {
    let mut storage = Storage::new();
    let append = |held: Option<Vec<u8>>| {
        let mut next = held.unwrap_or_default();
        next.push(7);
        Some(next)
    };
    assert_eq!(fetch_and_update_no_copy(&mut storage, "t", b"k", &append), None);
    assert_eq!(fetch_and_update_no_copy(&mut storage, "t", b"k", &append), Some(vec![7]));
    assert_eq!(storage.get("t", b"k"), Some(vec![7, 7]));
    assert_eq!(fetch_and_update_no_copy(&mut storage, "t", b"k", |_| None), Some(vec![7, 7]));
    assert_eq!(storage.get("t", b"k"), None);
    assert_eq!(storage.get("other", b"k"), None);
}

#[test]
fn the_schedule_follows_its_updates() {
    let mut storage = Storage::new();
    let key = TreeKey::new("d", "ns", String::from("k"));
    storage.update_key_expiration(ExpirationUpdate { tree_key: key.clone(), expiration: Some(at(5)) });
    assert_eq!(storage.scheduled_len(), 1);
    storage.update_key_expiration(ExpirationUpdate { tree_key: key.clone(), expiration: Some(at(6)) });
    assert_eq!(storage.scheduled_len(), 1);
    assert_eq!(storage.scheduled_at(0), (&key, at(6)));
    storage.update_key_expiration(ExpirationUpdate { tree_key: key, expiration: None });
    assert_eq!(storage.scheduled_len(), 0);
}

#[test]
fn entries_round_trip() {
    let entries = vec![
        Entry { value: Value::Bytes(vec![]), expiration: None },
        Entry { value: Value::Bytes(vec![0, 255, 7]), expiration: Some(at(3)) },
        Entry { value: Value::Numeric(Numeric::Integer(i64::MIN)), expiration: None },
        Entry { value: Value::Numeric(Numeric::Integer(-1)), expiration: Some(Timestamp { seconds: u64::MAX, nanos: u32::MAX }) },
        Entry { value: Value::Numeric(Numeric::UnsignedInteger(u64::MAX)), expiration: None },
        Entry { value: Value::Numeric(Numeric::Float(f64::NAN.to_bits())), expiration: None },
    ];
    for entry in entries {
        let bytes = entry.encode();
        assert_eq!(Entry::decode(&bytes), Some(entry));
        let mut longer = bytes.clone();
        longer.push(0);
        assert_eq!(Entry::decode(&longer), None);
        assert_eq!(Entry::decode(&bytes[..bytes.len() - 1]), None);
    }
    assert_eq!(Entry::decode(&[]), None);
    assert_eq!(Entry::decode(&[2, 0, 0, 0, 0]), None);
}

#[test]
fn entries_are_laid_out_as_bincode_lays_out_their_parts() {
    let bytes = Entry { value: Value::Bytes(vec![1, 2, 3]), expiration: None }.encode();
    assert_eq!(bytes, bincode::serialize(&(0u32, vec![1u8, 2, 3], None::<(u64, u32)>)).unwrap());
    let bytes = Entry {
        value: Value::Numeric(Numeric::UnsignedInteger(5)),
        expiration: Some(Timestamp { seconds: 1, nanos: 2 }),
    }
    .encode();
    assert_eq!(bytes, bincode::serialize(&(1u32, 1u32, 5u64, Some((1u64, 2u32)))).unwrap());
    let bytes = Entry { value: Value::Numeric(Numeric::Integer(-5)), expiration: None }.encode();
    assert_eq!(bytes, bincode::serialize(&(1u32, 0u32, -5i64, None::<(u64, u32)>)).unwrap());
    let bytes =
        Entry { value: Value::Numeric(Numeric::Float(0.1f64.to_bits())), expiration: None }.encode();
    assert_eq!(bytes, bincode::serialize(&(1u32, 2u32, 0.1f64, None::<(u64, u32)>)).unwrap());
    assert_eq!(
        bytes,
        vec![1, 0, 0, 0, 2, 0, 0, 0, 0x9a, 0x99, 0x99, 0x99, 0x99, 0x99, 0xb9, 0x3f, 0]
    );
}

#[test]
fn arithmetic_schedules_the_key_as_its_entry_says() {
    let mut db = database();
    let tree = key_tree("d", None);
    let one = Numeric::UnsignedInteger(1);
    set(&mut db, "n", Value::Numeric(Numeric::UnsignedInteger(5)), Some(at(10)));
    assert_eq!(next_expiration(&db), Some(at(10)));
    // the key leaves the tree behind the back of the schedule
    fetch_and_update_no_copy(&mut db.storage, &tree, b"n", |_| None);
    assert_eq!(get(&mut db, "n"), Ok(Output::Value(None)));
    // a counter that never expires takes its place, and is not scheduled
    assert_eq!(
        execute_increment_operation(&tree, "n", &mut db, &one, false),
        Ok(Output::Value(Some(Value::Numeric(Numeric::UnsignedInteger(1)))))
    );
    assert_eq!(next_expiration(&db), None);
    assert!(expire_keys(&mut db, at(10)).is_empty());
    assert!(expire_keys(&mut db, at(1000)).is_empty());
    assert_eq!(get(&mut db, "n"), Ok(Output::Value(Some(Value::Numeric(Numeric::UnsignedInteger(1))))));
}

#[test]
fn subtraction_keeps_the_expiration_of_the_entry() {
    let mut db = database();
    let tree = key_tree("d", None);
    let two = Numeric::UnsignedInteger(2);
    set(&mut db, "n", Value::Numeric(Numeric::UnsignedInteger(5)), Some(at(10)));
    assert_eq!(
        execute_decrement_operation(&tree, "n", &mut db, &two, false),
        Ok(Output::Value(Some(Value::Numeric(Numeric::UnsignedInteger(3)))))
    );
    assert_eq!(next_expiration(&db), Some(at(10)));
    assert!(expire_keys(&mut db, at(9)).is_empty());
    assert_eq!(expire_keys(&mut db, at(10)).len(), 1);
    assert_eq!(get(&mut db, "n"), Ok(Output::Value(None)));
}
