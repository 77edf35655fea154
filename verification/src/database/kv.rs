//! The key-value operations of a database.

use crate::codec::{
    encode_bytes, encode_i64, encode_u32, encode_u64, lemma_parse_bytes, lemma_parse_i64,
    lemma_parse_u32, lemma_parse_u64, lemma_parse_u8, parse_bytes, parse_i64, parse_u32,
    parse_u64, parse_u8, read_bytes, read_i64, read_u32, read_u64, read_u8, write_bytes,
    write_i64, write_u32, write_u64, write_u8,
};
use crate::assoc::KeyEq;
use crate::database::Database;
use crate::schema::Schema;
use crate::error::{Error, ErrorView};
use crate::keyvalue::numeric::{
    decrement, increment, lemma_increment_by_opposite, spec_decrement, spec_increment, Numeric,
};
use crate::keyvalue::{Command, KeyCheck, KeyOperation, KeyStatus, Output, OutputView};
use crate::storage::kv::{schedule_after, ExpirationUpdate};
use crate::storage::{held, held_assign, Keyspace, Storage, StorageView};
use crate::text::{lemma_utf8_injective, str_equal};
use crate::tree::{option_ref_view, option_view, Swap};
use vstd::string::StringSliceAdditionalSpecFns;
use vstd::utf8::{decode_utf8, decode_utf8_encode_utf8, encode_utf8, encode_utf8_decode_utf8, encode_utf8_valid_utf8, valid_utf8};
use crate::keyvalue::{Timestamp, Value, ValueView};
use vstd::prelude::*;
use vstd::string::StringExecFns;

verus! {

/// What a key of the key-value store holds: its value, and when it expires.
#[derive(Debug, PartialEq, Eq)]
pub struct Entry {
    /// The value of the key.
    pub value: Value,
    /// When the key expires; `None` is never.
    pub expiration: Option<Timestamp>,
}

/// The mathematical content of an [`Entry`].
pub struct EntryView {
    /// The value of the key.
    pub value: ValueView,
    /// When the key expires; `None` is never.
    pub expiration: Option<Timestamp>,
}

impl View for Entry {
    type V = EntryView;

    open spec fn view(&self) -> EntryView {
        EntryView { value: self.value@, expiration: self.expiration }
    }
}

/// The bytes of a number: its kind, then its eight bytes.
pub open spec fn encode_numeric(n: Numeric) -> Seq<u8> {
    match n {
        Numeric::Integer(v) => encode_u32(0) + encode_i64(v),
        Numeric::UnsignedInteger(v) => encode_u32(1) + encode_u64(v),
        Numeric::Float(bits) => encode_u32(2) + encode_u64(bits),
    }
}

/// The bytes of a value: its kind, then its content.
pub open spec fn encode_value(v: ValueView) -> Seq<u8> {
    match v {
        ValueView::Bytes(b) => encode_u32(0) + encode_bytes(b),
        ValueView::Numeric(n) => encode_u32(1) + encode_numeric(n),
    }
}

/// The bytes of a point in time: its seconds, then its nanoseconds.
pub open spec fn encode_timestamp(t: Timestamp) -> Seq<u8> {
    encode_u64(t.seconds) + encode_u32(t.nanos)
}

/// The bytes of an optional point in time.
pub open spec fn encode_expiration(e: Option<Timestamp>) -> Seq<u8> {
    match e {
        None => seq![0u8],
        Some(t) => seq![1u8] + encode_timestamp(t),
    }
}

/// The bytes of an entry: its value, then its expiration.
pub open spec fn encode_entry(e: EntryView) -> Seq<u8> {
    encode_value(e.value) + encode_expiration(e.expiration)
}

/// Reads a number from the front of `s`.
pub open spec fn parse_numeric(s: Seq<u8>) -> Option<(Numeric, Seq<u8>)> {
    match parse_u32(s) {
        Some((kind, rest)) => if kind == 0 {
            match parse_i64(rest) {
                Some((v, rest)) => Some((Numeric::Integer(v), rest)),
                None => None,
            }
        } else if kind == 1 {
            match parse_u64(rest) {
                Some((v, rest)) => Some((Numeric::UnsignedInteger(v), rest)),
                None => None,
            }
        } else if kind == 2 {
            match parse_u64(rest) {
                Some((v, rest)) => Some((Numeric::Float(v), rest)),
                None => None,
            }
        } else {
            None
        },
        None => None,
    }
}

/// Reads a value from the front of `s`.
pub open spec fn parse_value(s: Seq<u8>) -> Option<(ValueView, Seq<u8>)> {
    match parse_u32(s) {
        Some((kind, rest)) => if kind == 0 {
            match parse_bytes(rest) {
                Some((b, rest)) => Some((ValueView::Bytes(b), rest)),
                None => None,
            }
        } else if kind == 1 {
            match parse_numeric(rest) {
                Some((n, rest)) => Some((ValueView::Numeric(n), rest)),
                None => None,
            }
        } else {
            None
        },
        None => None,
    }
}

/// Reads a point in time from the front of `s`.
pub open spec fn parse_timestamp(s: Seq<u8>) -> Option<(Timestamp, Seq<u8>)> {
    match parse_u64(s) {
        Some((seconds, rest)) => match parse_u32(rest) {
            Some((nanos, rest)) => Some((Timestamp { seconds, nanos }, rest)),
            None => None,
        },
        None => None,
    }
}

/// Reads an optional point in time from the front of `s`.
pub open spec fn parse_expiration(s: Seq<u8>) -> Option<(Option<Timestamp>, Seq<u8>)> {
    match parse_u8(s) {
        Some((tag, rest)) => if tag == 0 {
            Some((None, rest))
        } else if tag == 1 {
            match parse_timestamp(rest) {
                Some((t, rest)) => Some((Some(t), rest)),
                None => None,
            }
        } else {
            None
        },
        None => None,
    }
}

/// Reads an entry from the front of `s`.
pub open spec fn parse_entry(s: Seq<u8>) -> Option<(EntryView, Seq<u8>)> {
    match parse_value(s) {
        Some((value, rest)) => match parse_expiration(rest) {
            Some((expiration, rest)) => Some((EntryView { value, expiration }, rest)),
            None => None,
        },
        None => None,
    }
}

/// The entry that `bytes` encode: they must hold one entry and nothing more.
pub open spec fn decode_entry(bytes: Seq<u8>) -> Option<EntryView> {
    match parse_entry(bytes) {
        Some((entry, rest)) => if rest.len() == 0 {
            Some(entry)
        } else {
            None
        },
        None => None,
    }
}

/// Whether an entry can be encoded: its bytes, if it holds any, have a
/// length that fits the 64 bits of the length field.
pub open spec fn encodable(e: EntryView) -> bool {
    e.value matches ValueView::Bytes(b) ==> b.len() <= u64::MAX
}

/// An entry with the view of a value that a program holds can be encoded.
pub proof fn lemma_value_encodable(value: Value, expiration: Option<Timestamp>)
    ensures
        encodable(EntryView { value: value@, expiration }),
{
    match value {
        Value::Bytes(b) => {
            assert(b.len() == b@.len());
        },
        Value::Numeric(_) => {},
    }
}

/// Reading a number written in front of `rest` gives it back.
pub proof fn lemma_parse_numeric(n: Numeric, rest: Seq<u8>)
    ensures
        parse_numeric(encode_numeric(n) + rest) == Some((n, rest)),
{
    match n {
        Numeric::Integer(v) => {
            assert(encode_numeric(n) + rest =~= encode_u32(0) + (encode_i64(v) + rest));
            lemma_parse_u32(0, encode_i64(v) + rest);
            lemma_parse_i64(v, rest);
        },
        Numeric::UnsignedInteger(v) => {
            assert(encode_numeric(n) + rest =~= encode_u32(1) + (encode_u64(v) + rest));
            lemma_parse_u32(1, encode_u64(v) + rest);
            lemma_parse_u64(v, rest);
        },
        Numeric::Float(v) => {
            assert(encode_numeric(n) + rest =~= encode_u32(2) + (encode_u64(v) + rest));
            lemma_parse_u32(2, encode_u64(v) + rest);
            lemma_parse_u64(v, rest);
        },
    }
}

/// Reading a value written in front of `rest` gives it back.
pub proof fn lemma_parse_value(v: ValueView, rest: Seq<u8>)
    requires
        v matches ValueView::Bytes(b) ==> b.len() <= u64::MAX,
    ensures
        parse_value(encode_value(v) + rest) == Some((v, rest)),
{
    match v {
        ValueView::Bytes(b) => {
            assert(encode_value(v) + rest =~= encode_u32(0) + (encode_bytes(b) + rest));
            lemma_parse_u32(0, encode_bytes(b) + rest);
            lemma_parse_bytes(b, rest);
        },
        ValueView::Numeric(n) => {
            assert(encode_value(v) + rest =~= encode_u32(1) + (encode_numeric(n) + rest));
            lemma_parse_u32(1, encode_numeric(n) + rest);
            lemma_parse_numeric(n, rest);
        },
    }
}

/// Reading an expiration written in front of `rest` gives it back.
pub proof fn lemma_parse_expiration(e: Option<Timestamp>, rest: Seq<u8>)
    ensures
        parse_expiration(encode_expiration(e) + rest) == Some((e, rest)),
{
    match e {
        None => {
            lemma_parse_u8(0, rest);
        },
        Some(t) => {
            let tail = encode_u64(t.seconds) + (encode_u32(t.nanos) + rest);
            assert(encode_expiration(e) + rest =~= seq![1u8] + tail);
            lemma_parse_u8(1, tail);
            lemma_parse_u64(t.seconds, encode_u32(t.nanos) + rest);
            lemma_parse_u32(t.nanos, rest);
        },
    }
}

/// Reading an entry written in front of `rest` gives it back.
pub proof fn lemma_parse_entry(e: EntryView, rest: Seq<u8>)
    requires
        encodable(e),
    ensures
        parse_entry(encode_entry(e) + rest) == Some((e, rest)),
{
    assert(encode_entry(e) + rest =~= encode_value(e.value) + (encode_expiration(e.expiration)
        + rest));
    lemma_parse_value(e.value, encode_expiration(e.expiration) + rest);
    lemma_parse_expiration(e.expiration, rest);
}

/// Decoding the encoding of an entry gives the entry back.
pub proof fn lemma_entry_round_trip(e: EntryView)
    requires
        encodable(e),
    ensures
        decode_entry(encode_entry(e)) == Some(e),
{
    assert(encode_entry(e) + Seq::<u8>::empty() =~= encode_entry(e));
    lemma_parse_entry(e, Seq::<u8>::empty());
}

/// Appends a number.
pub fn write_numeric(out: &mut Vec<u8>, n: &Numeric)
    ensures
        final(out)@ == old(out)@ + encode_numeric(*n),
{
    match n {
        Numeric::Integer(v) => {
            write_u32(out, 0);
            write_i64(out, *v);
        },
        Numeric::UnsignedInteger(v) => {
            write_u32(out, 1);
            write_u64(out, *v);
        },
        Numeric::Float(bits) => {
            write_u32(out, 2);
            write_u64(out, *bits);
        },
    }
    assert(out@ =~= old(out)@ + encode_numeric(*n));
}

/// Appends a value.
pub fn write_value(out: &mut Vec<u8>, v: &Value)
    ensures
        final(out)@ == old(out)@ + encode_value(v@),
{
    match v {
        Value::Bytes(b) => {
            write_u32(out, 0);
            write_bytes(out, b.as_slice());
        },
        Value::Numeric(n) => {
            write_u32(out, 1);
            write_numeric(out, n);
        },
    }
    assert(out@ =~= old(out)@ + encode_value(v@));
}

/// Appends an optional point in time.
pub fn write_expiration(out: &mut Vec<u8>, e: &Option<Timestamp>)
    ensures
        final(out)@ == old(out)@ + encode_expiration(*e),
{
    match e {
        None => {
            write_u8(out, 0);
        },
        Some(t) => {
            write_u8(out, 1);
            write_u64(out, t.seconds);
            write_u32(out, t.nanos);
        },
    }
    assert(out@ =~= old(out)@ + encode_expiration(*e));
}

/// Reads a number at `pos`.
pub fn read_numeric(input: &[u8], pos: usize) -> (r: Option<(Numeric, usize)>)
    requires
        pos <= input@.len(),
    ensures
        crate::codec::read_matches(input@, pos, parse_numeric(input@.skip(pos as int)), r),
{
    let (kind, next) = match read_u32(input, pos) {
        Some(r) => r,
        None => { return None; },
    };
    if kind == 0 {
        match read_i64(input, next) {
            Some((v, end)) => Some((Numeric::Integer(v), end)),
            None => None,
        }
    } else if kind == 1 {
        match read_u64(input, next) {
            Some((v, end)) => Some((Numeric::UnsignedInteger(v), end)),
            None => None,
        }
    } else if kind == 2 {
        match read_u64(input, next) {
            Some((v, end)) => Some((Numeric::Float(v), end)),
            None => None,
        }
    } else {
        None
    }
}

/// Reads a value at `pos`.
pub fn read_value(input: &[u8], pos: usize) -> (r: Option<(Value, usize)>)
    requires
        pos <= input@.len(),
    ensures
        match r {
            Some((v, next)) => {
                &&& pos <= next <= input@.len()
                &&& parse_value(input@.skip(pos as int)) == Some((v@, input@.skip(next as int)))
            },
            None => parse_value(input@.skip(pos as int)) is None,
        },
{
    let (kind, next) = match read_u32(input, pos) {
        Some(r) => r,
        None => { return None; },
    };
    if kind == 0 {
        match read_bytes(input, next) {
            Some((b, end)) => Some((Value::Bytes(b), end)),
            None => None,
        }
    } else if kind == 1 {
        match read_numeric(input, next) {
            Some((n, end)) => Some((Value::Numeric(n), end)),
            None => None,
        }
    } else {
        None
    }
}

/// Reads an optional point in time at `pos`.
pub fn read_expiration(input: &[u8], pos: usize) -> (r: Option<(Option<Timestamp>, usize)>)
    requires
        pos <= input@.len(),
    ensures
        crate::codec::read_matches(input@, pos, parse_expiration(input@.skip(pos as int)), r),
{
    let (tag, next) = match read_u8(input, pos) {
        Some(r) => r,
        None => { return None; },
    };
    if tag == 0 {
        Some((None, next))
    } else if tag == 1 {
        let (seconds, after_seconds) = match read_u64(input, next) {
            Some(r) => r,
            None => { return None; },
        };
        match read_u32(input, after_seconds) {
            Some((nanos, end)) => Some((Some(Timestamp { seconds, nanos }), end)),
            None => None,
        }
    } else {
        None
    }
}

impl Entry {
    /// The bytes of the entry.
    pub fn encode(&self) -> (bytes: Vec<u8>)
        ensures
            bytes@ == encode_entry(self@),
    {
        let mut out: Vec<u8> = Vec::new();
        write_value(&mut out, &self.value);
        write_expiration(&mut out, &self.expiration);
        assert(out@ =~= encode_entry(self@));
        out
    }

    /// The entry that `bytes` encode, or `None` if they encode none.
    pub fn decode(bytes: &[u8]) -> (entry: Option<Entry>)
        ensures
            match entry {
                Some(e) => decode_entry(bytes@) == Some(e@),
                None => decode_entry(bytes@) is None,
            },
    {
        assert(bytes@.skip(0) =~= bytes@);
        let (value, next) = match read_value(bytes, 0) {
            Some(r) => r,
            None => { return None; },
        };
        let (expiration, end) = match read_expiration(bytes, next) {
            Some(r) => r,
            None => { return None; },
        };
        if end == bytes.len() {
            Some(Entry { value, expiration })
        } else {
            None
        }
    }
}

/// The name of the tree that holds the keys of a namespace of a database:
/// the name of the database, `.kv.`, and the namespace.
pub open spec fn spec_key_tree(database: Seq<char>, namespace: Seq<char>) -> Seq<char> {
    database + ".kv."@ + namespace
}

/// The namespace that `None` stands for: the one without a name.
pub open spec fn namespace_or_default(namespace: Option<String>) -> Seq<char> {
    match namespace {
        Some(n) => n@,
        None => Seq::<char>::empty(),
    }
}

/// The name of the tree that holds the keys of `namespace` in `database`.
pub fn key_tree(database: &str, namespace: Option<String>) -> (name: String)
    ensures
        name@ == spec_key_tree(database@, namespace_or_default(namespace)),
{
    let mut name = String::from_str(database);
    name.append(".kv.");
    match namespace {
        Some(n) => {
            name.append(n.as_str());
        },
        None => {
            assert(name@ + Seq::<char>::empty() =~= name@);
        },
    }
    name
}

/// A key of the key-value store together with the tree that holds it.
#[derive(Hash, Eq, PartialEq, Debug)]
pub struct TreeKey {
    /// The name of the tree.
    pub tree: String,
    /// The key.
    pub key: String,
}

impl View for TreeKey {
    type V = (Seq<char>, Seq<char>);

    open spec fn view(&self) -> (Seq<char>, Seq<char>) {
        (self.tree@, self.key@)
    }
}

impl Clone for TreeKey {
    fn clone(&self) -> (r: TreeKey)
        ensures
            r@ == self@,
    {
        TreeKey { tree: self.tree.clone(), key: self.key.clone() }
    }
}

impl KeyEq for TreeKey {
    fn key_eq(&self, other: &Self) -> (r: bool) {
        str_equal(self.tree.as_str(), other.tree.as_str()) && str_equal(
            self.key.as_str(),
            other.key.as_str(),
        )
    }
}

impl TreeKey {
    /// The key `key` of the namespace `tree` of the database `database`.
    pub fn new(database: &str, tree: &str, key: String) -> (tree_key: TreeKey)
        ensures
            tree_key@ == (spec_key_tree(database@, tree@), key@),
    {
        let mut name = String::from_str(database);
        name.append(".kv.");
        name.append(tree);
        TreeKey { tree: name, key }
    }
}

/// What the key `key` of the tree `tree` holds.
pub open spec fn entry_of(space: Keyspace, tree: Seq<char>, key: Seq<char>) -> Option<Seq<u8>> {
    held(space, tree, encode_utf8(key))
}

/// When the entry that the key holds expires, if it holds an entry that
/// does.
pub open spec fn entry_expiration(space: Keyspace, tree: Seq<char>, key: Seq<char>) -> Option<
    Timestamp,
> {
    match entry_of(space, tree, key) {
        Some(bytes) => match decode_entry(bytes) {
            Some(entry) => entry.expiration,
            None => None,
        },
        None => None,
    }
}

/// Whether every entry that expires is scheduled at the time at which it
/// does.
pub open spec fn schedule_covers(s: StorageView) -> bool {
    forall|tree: Seq<char>, key: Seq<char>|
        (#[trigger] entry_expiration(s.trees, tree, key)) matches Some(t)
            ==> s.expirations.contains_key((tree, key)) && s.expirations[(tree, key)] == t
}

/// Whether `SetKey` writes, given its check and whether the key has a value.
pub open spec fn spec_should_update(check: Option<KeyCheck>, present: bool) -> bool {
    match check {
        Some(KeyCheck::OnlyIfPresent) => present,
        Some(KeyCheck::OnlyIfVacant) => !present,
        None => true,
    }
}

/// The expiration that `SetKey` stores: that of the entry that the key
/// holds, where it is to be kept and the key holds an entry that can be
/// read; the one given otherwise.
pub open spec fn spec_kept_expiration(
    existing: Option<Seq<u8>>,
    expiration: Option<Timestamp>,
    keep_existing_expiration: bool,
) -> Option<Timestamp> {
    if keep_existing_expiration && existing is Some && decode_entry(existing->0) is Some {
        decode_entry(existing->0)->0.expiration
    } else {
        expiration
    }
}

/// What the key holds after `SetKey`.
pub open spec fn spec_next_entry(
    existing: Option<Seq<u8>>,
    value: ValueView,
    expiration: Option<Timestamp>,
    keep_existing_expiration: bool,
    check: Option<KeyCheck>,
) -> Option<Seq<u8>> {
    if spec_should_update(check, existing is Some) {
        Some(
            encode_entry(
                EntryView {
                    value,
                    expiration: spec_kept_expiration(
                        existing,
                        expiration,
                        keep_existing_expiration,
                    ),
                },
            ),
        )
    } else {
        existing
    }
}

/// The value of the entry that `existing` encodes, if it encodes one.
pub open spec fn spec_stored_value(existing: Option<Seq<u8>>) -> Option<ValueView> {
    match existing {
        Some(bytes) => match decode_entry(bytes) {
            Some(entry) => Some(entry.value),
            None => None,
        },
        None => None,
    }
}

/// What `SetKey` returns: the value that the key held, where that is asked
/// for, whether or not the key was written; else what became of the key.
pub open spec fn spec_set_output(
    existing: Option<Seq<u8>>,
    check: Option<KeyCheck>,
    return_previous_value: bool,
) -> OutputView {
    if return_previous_value {
        OutputView::Value(spec_stored_value(existing))
    } else if !spec_should_update(check, existing is Some) {
        OutputView::Status(KeyStatus::NotChanged)
    } else if existing is None {
        OutputView::Status(KeyStatus::Inserted)
    } else {
        OutputView::Status(KeyStatus::Updated)
    }
}

/// The storage after `SetKey`.
pub open spec fn storage_after_set(
    s: StorageView,
    tree: Seq<char>,
    key: Seq<char>,
    value: ValueView,
    expiration: Option<Timestamp>,
    keep_existing_expiration: bool,
    check: Option<KeyCheck>,
) -> StorageView {
    let existing = entry_of(s.trees, tree, key);
    if spec_should_update(check, existing is Some) {
        let kept = spec_kept_expiration(existing, expiration, keep_existing_expiration);
        StorageView {
            trees: s.trees.insert(
                (tree, encode_utf8(key)),
                encode_entry(EntryView { value, expiration: kept }),
            ),
            expirations: schedule_after(s.expirations, (tree, key), kept),
        }
    } else {
        s
    }
}

/// The storage after the key was removed: it holds nothing, and if it held
/// something it is no longer scheduled.
pub open spec fn storage_after_removal(s: StorageView, tree: Seq<char>, key: Seq<char>) -> StorageView {
    if entry_of(s.trees, tree, key) is Some {
        StorageView {
            trees: s.trees.remove((tree, encode_utf8(key))),
            expirations: s.expirations.remove((tree, key)),
        }
    } else {
        s
    }
}

/// What `Get` returns for what the key holds.
pub open spec fn spec_get_output(existing: Option<Seq<u8>>) -> Result<OutputView, ErrorView> {
    match existing {
        Some(bytes) => match decode_entry(bytes) {
            Some(entry) => Ok(OutputView::Value(Some(entry.value))),
            None => Err(ErrorView::Database(crate::error::undecodable_entry_message())),
        },
        None => Ok(OutputView::Value(None)),
    }
}

/// The view of the result of an operation.
pub open spec fn result_view(r: Result<Output, Error>) -> Result<OutputView, ErrorView> {
    match r {
        Ok(output) => Ok(output@),
        Err(error) => Err(error@),
    }
}

/// Writing an entry under a key and scheduling its expiration keeps every
/// expiring entry scheduled.
pub proof fn lemma_write_keeps_schedule(
    s: StorageView,
    tree: Seq<char>,
    key: Seq<char>,
    entry: EntryView,
)
    requires
        schedule_covers(s),
        encodable(entry),
    ensures
        schedule_covers(
            StorageView {
                trees: s.trees.insert((tree, encode_utf8(key)), encode_entry(entry)),
                expirations: schedule_after(s.expirations, (tree, key), entry.expiration),
            },
        ),
{
    let after = StorageView {
        trees: s.trees.insert((tree, encode_utf8(key)), encode_entry(entry)),
        expirations: schedule_after(s.expirations, (tree, key), entry.expiration),
    };
    lemma_entry_round_trip(entry);
    assert forall|t2: Seq<char>, k2: Seq<char>|
        (#[trigger] entry_expiration(after.trees, t2, k2)) is Some
            implies after.expirations.contains_key((t2, k2)) && after.expirations[(t2, k2)]
        == entry_expiration(after.trees, t2, k2)->0 by {
        if t2 == tree && encode_utf8(k2) == encode_utf8(key) {
            lemma_utf8_injective(k2, key);
        } else {
            assert(entry_expiration(s.trees, t2, k2) == entry_expiration(after.trees, t2, k2));
        }
    }
}

/// Removing a key and its place in the schedule keeps every expiring entry
/// scheduled.
pub proof fn lemma_removal_keeps_schedule(s: StorageView, tree: Seq<char>, key: Seq<char>)
    requires
        schedule_covers(s),
    ensures
        schedule_covers(storage_after_removal(s, tree, key)),
{
    let after = storage_after_removal(s, tree, key);
    assert forall|t2: Seq<char>, k2: Seq<char>|
        (#[trigger] entry_expiration(after.trees, t2, k2)) is Some
            implies after.expirations.contains_key((t2, k2)) && after.expirations[(t2, k2)]
        == entry_expiration(after.trees, t2, k2)->0 by {
        if t2 == tree && encode_utf8(k2) == encode_utf8(key) {
            lemma_utf8_injective(k2, key);
        } else {
            assert(entry_expiration(s.trees, t2, k2) == entry_expiration(after.trees, t2, k2));
        }
    }
}

/// Whether `SetKey` writes, given its check and whether the key has a value.
pub fn should_update(check: Option<KeyCheck>, present: bool) -> (r: bool)
    ensures
        r == spec_should_update(check, present),
{
    match check {
        Some(KeyCheck::OnlyIfPresent) => present,
        Some(KeyCheck::OnlyIfVacant) => !present,
        None => true,
    }
}

/// The expiration that `SetKey` stores; see [`spec_kept_expiration`].
pub fn kept_expiration(
    existing: Option<&Vec<u8>>,
    expiration: Option<Timestamp>,
    keep_existing_expiration: bool,
) -> (r: Option<Timestamp>)
    ensures
        r == spec_kept_expiration(option_ref_view(existing), expiration, keep_existing_expiration),
{
    if keep_existing_expiration {
        if let Some(bytes) = existing {
            if let Some(previous_entry) = Entry::decode(bytes.as_slice()) {
                return previous_entry.expiration;
            }
        }
    }
    expiration
}

/// What `SetKey` puts under a key that holds `existing`: the new entry, or
/// what the key holds where the check keeps it from writing.
pub fn next_entry(
    existing: Option<Vec<u8>>,
    value: &Value,
    expiration: Option<Timestamp>,
    keep_existing_expiration: bool,
    check: Option<KeyCheck>,
) -> (next: Option<Vec<u8>>)
    ensures
        option_view(next) == spec_next_entry(
            option_view(existing),
            value@,
            expiration,
            keep_existing_expiration,
            check,
        ),
{
    if should_update(check, existing.is_some()) {
        let kept = kept_expiration(existing.as_ref(), expiration, keep_existing_expiration);
        let mut bytes: Vec<u8> = Vec::new();
        write_value(&mut bytes, value);
        write_expiration(&mut bytes, &kept);
        assert(bytes@ =~= encode_entry(EntryView { value: value@, expiration: kept }));
        Some(bytes)
    } else {
        existing
    }
}

/// The value of the entry that `existing` encodes, if it encodes one.
pub fn stored_value(existing: Option<Vec<u8>>) -> (value: Option<Value>)
    ensures
        crate::keyvalue::option_value_view(value) == spec_stored_value(option_view(existing)),
{
    match existing {
        Some(bytes) => match Entry::decode(bytes.as_slice()) {
            Some(entry) => Some(entry.value),
            None => None,
        },
        None => None,
    }
}

/// What a key holds: its bytes, or nothing.
pub type Held = Option<Vec<u8>>;

/// Replaces what `key` of the tree `tree` holds by what `f` makes of it, and
/// returns what it held. The value is read, handed to `f`, and the result is
/// written only if the key still holds what was read; otherwise the step is
/// repeated with what the key holds now.
pub fn fetch_and_update_no_copy<F: Fn(Option<Vec<u8>>) -> Option<Vec<u8>>>(
    storage: &mut Storage,
    tree: &str,
    key: &[u8],
    f: F,
) -> (previous: Option<Vec<u8>>)
    requires
        old(storage).wf(),
        forall|given: Option<Vec<u8>>| f.requires((given,)),
    ensures
        final(storage).wf(),
        option_view(previous) == held(old(storage)@.trees, tree@, key@),
        final(storage)@.expirations == old(storage)@.expirations,
        exists|given: Option<Vec<u8>>, next: Option<Vec<u8>>|
            {
                &&& option_view(given) == option_view(previous)
                &&& f.ensures((given,), next)
                &&& final(storage)@.trees == held_assign(
                    old(storage)@.trees,
                    tree@,
                    key@,
                    option_view(next),
                )
            },
{
    let mut current = storage.get(tree, key);
    loop
        invariant
            storage.wf(),
            storage@ == old(storage)@,
            forall|given: Option<Vec<u8>>| f.requires((given,)),
        decreases
                (if option_view(current) == held(storage@.trees, tree@, key@) {
                    0nat
                } else {
                    1nat
                }),
    {
        let given = match &current {
            Some(bytes) => Some(crate::codec::copy_bytes(bytes.as_slice())),
            None => None,
        };
        let next = f(given);
        let ghost proposed = next;
        match storage.compare_and_swap(tree, key, current.as_ref(), next) {
            Swap::Swapped => {
                assert(f.ensures((given,), proposed));
                return current;
            },
            Swap::Conflict(held_now) => {
                current = held_now;
            },
        }
    }
}

/// Sets `key` of the tree `tree_name` to `value`, provided `check` allows
/// it, and schedules its expiration.
///
/// With `return_previous_value`, returns the value that the key held,
/// whether or not the check allowed the write. Without it, returns
/// `Status(NotChanged)` where the check kept the key as it was,
/// `Status(Inserted)` for a key that had no value and `Status(Updated)` for
/// one that had.
pub fn execute_set_operation<DB: Schema>(
    tree_name: &str,
    key: String,
    value: Value,
    expiration: Option<Timestamp>,
    keep_existing_expiration: bool,
    check: Option<KeyCheck>,
    return_previous_value: bool,
    db: &mut Database<DB>,
) -> (r: Result<Output, Error>)
    requires
        old(db).wf(),
    ensures
        final(db).wf(),
        final(db).name == old(db).name,
        final(db).documents == old(db).documents,
        final(db).relay == old(db).relay,
        final(db).storage@ == storage_after_set(
            old(db).storage@,
            tree_name@,
            key@,
            value@,
            expiration,
            keep_existing_expiration,
            check,
        ),
        result_view(r) == Ok::<OutputView, ErrorView>(
            spec_set_output(
                entry_of(old(db).storage@.trees, tree_name@, key@),
                check,
                return_previous_value,
            ),
        ),
{
    let ghost before = db.storage@;
    let ghost existing = entry_of(before.trees, tree_name@, key@);
    let propose = |given: Held| -> (next: Held)
        ensures
            option_view(next) == spec_next_entry(
                option_view(given),
                value@,
                expiration,
                keep_existing_expiration,
                check,
            ),
        { next_entry(given, &value, expiration, keep_existing_expiration, check) };
    let previous = fetch_and_update_no_copy(&mut db.storage, tree_name, key.as_str().as_bytes(), propose);
    let updated = should_update(check, previous.is_some());
    if updated {
        let inserted = previous.is_none();
        let kept = kept_expiration(previous.as_ref(), expiration, keep_existing_expiration);
        db.storage.update_key_expiration(
            ExpirationUpdate {
                tree_key: TreeKey { tree: String::from_str(tree_name), key },
                expiration: kept,
            },
        );
        proof {
            lemma_value_encodable(value, kept);
            lemma_write_keeps_schedule(
                before,
                tree_name@,
                key@,
                EntryView { value: value@, expiration: kept },
            );
        }
        if return_previous_value {
            Ok(Output::Value(stored_value(previous)))
        } else if inserted {
            Ok(Output::Status(KeyStatus::Inserted))
        } else {
            Ok(Output::Status(KeyStatus::Updated))
        }
    } else {
        proof {
            assert(held_assign(before.trees, tree_name@, encode_utf8(key@), existing)
                =~= before.trees);
        }
        if return_previous_value {
            Ok(Output::Value(stored_value(previous)))
        } else {
            Ok(Output::Status(KeyStatus::NotChanged))
        }
    }
}

/// What `Get` returns for what the key holds.
pub fn get_output(existing: Option<Vec<u8>>) -> (r: Result<Output, Error>)
    ensures
        result_view(r) == spec_get_output(option_view(existing)),
{
    match existing {
        Some(bytes) => match Entry::decode(bytes.as_slice()) {
            Some(entry) => Ok(Output::Value(Some(entry.value))),
            None => Err(Error::undecodable_entry()),
        },
        None => Ok(Output::Value(None)),
    }
}

/// Reads the value of `key` of the tree `tree_name`; with `delete`, the key
/// is removed in the same step and is no longer scheduled to expire.
///
/// Returns `Value(None)` for a key without a value, and an error for a key
/// that holds what is no entry; with `delete`, that key is removed all the
/// same.
pub fn execute_get_operation<DB: Schema>(tree_name: &str, key: &str, delete: bool, db: &mut Database<DB>) -> (r:
    Result<Output, Error>)
    requires
        old(db).wf(),
    ensures
        final(db).wf(),
        final(db).name == old(db).name,
        final(db).documents == old(db).documents,
        final(db).relay == old(db).relay,
        final(db).storage@ == (if delete {
            storage_after_removal(old(db).storage@, tree_name@, key@)
        } else {
            old(db).storage@
        }),
        result_view(r) == spec_get_output(entry_of(old(db).storage@.trees, tree_name@, key@)),
{
    let ghost before = db.storage@;
    let entry = if delete {
        let entry = db.storage.remove(tree_name, key.as_bytes());
        if entry.is_some() {
            db.storage.update_key_expiration(
                ExpirationUpdate {
                    tree_key: TreeKey {
                        tree: String::from_str(tree_name),
                        key: String::from_str(key),
                    },
                    expiration: None,
                },
            );
        } else {
            assert(before.trees.remove((tree_name@, encode_utf8(key@))) =~= before.trees);
        }
        proof {
            lemma_removal_keeps_schedule(before, tree_name@, key@);
        }
        entry
    } else {
        db.storage.get(tree_name, key.as_bytes())
    };
    get_output(entry)
}

/// Removes `key` from the tree `tree_name`; it is no longer scheduled to
/// expire. Returns `Status(Deleted)` if the key had a value and
/// `Status(NotChanged)` if it had none.
pub fn execute_delete_operation<DB: Schema>(tree_name: &str, key: String, db: &mut Database<DB>) -> (r: Result<
    Output,
    Error,
>)
    requires
        old(db).wf(),
    ensures
        final(db).wf(),
        final(db).name == old(db).name,
        final(db).documents == old(db).documents,
        final(db).relay == old(db).relay,
        final(db).storage@ == storage_after_removal(old(db).storage@, tree_name@, key@),
        result_view(r) == Ok::<OutputView, ErrorView>(
            OutputView::Status(
                if entry_of(old(db).storage@.trees, tree_name@, key@) is Some {
                    KeyStatus::Deleted
                } else {
                    KeyStatus::NotChanged
                },
            ),
        ),
{
    let ghost before = db.storage@;
    let value = db.storage.remove(tree_name, key.as_str().as_bytes());
    proof {
        lemma_removal_keeps_schedule(before, tree_name@, key@);
    }
    if value.is_some() {
        db.storage.update_key_expiration(
            ExpirationUpdate {
                tree_key: TreeKey { tree: String::from_str(tree_name), key },
                expiration: None,
            },
        );
        Ok(Output::Status(KeyStatus::Deleted))
    } else {
        assert(before.trees.remove((tree_name@, encode_utf8(key@))) =~= before.trees);
        Ok(Output::Status(KeyStatus::NotChanged))
    }
}

/// The number that arithmetic starts from, with the expiration of its
/// entry: those of the entry that the key holds, or an unsigned zero that
/// does not expire where the key holds nothing. An error where the key
/// holds what is no entry, or an entry of bytes.
pub open spec fn spec_numeric_base(existing: Option<Seq<u8>>) -> Result<
    (Numeric, Option<Timestamp>),
    ErrorView,
> {
    match existing {
        None => Ok((Numeric::UnsignedInteger(0), None)),
        Some(bytes) => match decode_entry(bytes) {
            None => Err(ErrorView::Database(crate::error::undecodable_entry_message())),
            Some(entry) => match entry.value {
                ValueView::Numeric(n) => Ok((n, entry.expiration)),
                ValueView::Bytes(_) => Err(
                    ErrorView::Database(crate::error::not_numeric_message()),
                ),
            },
        },
    }
}

/// The number that arithmetic starts from; see [`spec_numeric_base`].
pub fn numeric_base(existing: Option<&Vec<u8>>) -> (r: Result<(Numeric, Option<Timestamp>), Error>)
    ensures
        match r {
            Ok(base) => spec_numeric_base(option_ref_view(existing)) == Ok::<
                (Numeric, Option<Timestamp>),
                ErrorView,
            >(base),
            Err(e) => spec_numeric_base(option_ref_view(existing)) == Err::<
                (Numeric, Option<Timestamp>),
                ErrorView,
            >(e@),
        },
{
    match existing {
        None => Ok((Numeric::UnsignedInteger(0), None)),
        Some(bytes) => match Entry::decode(bytes.as_slice()) {
            None => Err(Error::undecodable_entry()),
            Some(entry) => match entry.value {
                Value::Numeric(n) => Ok((n, entry.expiration)),
                Value::Bytes(_) => Err(Error::not_numeric()),
            },
        },
    }
}

/// The storage after arithmetic that gave `outcome`: the key holds the new
/// number with the expiration that its entry had, and is scheduled to
/// expire then, or not at all if its entry had none; where there is no
/// outcome, the storage is as it was.
pub open spec fn storage_after_numeric(
    s: StorageView,
    tree: Seq<char>,
    key: Seq<char>,
    expiration: Option<Timestamp>,
    outcome: Option<Numeric>,
) -> StorageView {
    match outcome {
        Some(v) => StorageView {
            trees: s.trees.insert(
                (tree, encode_utf8(key)),
                encode_entry(EntryView { value: ValueView::Numeric(v), expiration }),
            ),
            expirations: schedule_after(s.expirations, (tree, key), expiration),
        },
        None => s,
    }
}

/// What arithmetic that gave `outcome` returns: the new number, or, where
/// there is no outcome, the error of arithmetic with floating-point numbers.
pub open spec fn spec_numeric_output(outcome: Option<Numeric>) -> Result<OutputView, ErrorView> {
    match outcome {
        Some(v) => Ok(OutputView::Value(Some(ValueView::Numeric(v)))),
        None => Err(ErrorView::Other(crate::error::float_arithmetic_message())),
    }
}

/// How one attempt at arithmetic ended.
#[derive(Debug, PartialEq, Eq)]
pub enum Attempt {
    /// The operation is over, with this result.
    Done(Result<Output, Error>),
    /// The key no longer held what the attempt started from; it holds what
    /// is attached, and nothing was changed.
    Retry(Option<Vec<u8>>),
}

/// One attempt at arithmetic on `key` of the tree `tree_name`, made by a
/// writer that saw the key hold `observed`: the new number is computed from
/// what was seen, and written only if the key still holds it.
///
/// The attempt is over with an error, and nothing changes, where `observed`
/// is no entry or an entry of bytes, and where `op` gives no number. It is
/// over with the new number where the key held `observed`. Otherwise it is
/// to be repeated with what the key holds.
pub fn attempt_numeric_operation<DB: Schema, F: Fn(&Numeric, &Numeric, bool) -> Option<Numeric>>(
    tree_name: &str,
    key: &str,
    db: &mut Database<DB>,
    observed: Option<&Vec<u8>>,
    amount: &Numeric,
    saturating: bool,
    op: &F,
) -> (attempt: Attempt)
    requires
        old(db).wf(),
        forall|existing: &Numeric, amount: &Numeric, saturating: bool|
            op.requires((existing, amount, saturating)),
    ensures
        final(db).wf(),
        final(db).name == old(db).name,
        final(db).documents == old(db).documents,
        final(db).relay == old(db).relay,
        match spec_numeric_base(option_ref_view(observed)) {
            Err(e) => {
                &&& attempt matches Attempt::Done(r)
                &&& result_view(r) == Err::<OutputView, ErrorView>(e)
                &&& final(db).storage@ == old(db).storage@
            },
            Ok((existing, expiration)) => exists|outcome: Option<Numeric>|
                {
                    &&& #[trigger] op.ensures((&existing, amount, saturating), outcome)
                    &&& if outcome is None || entry_of(old(db).storage@.trees, tree_name@, key@)
                        == option_ref_view(observed) {
                        &&& attempt matches Attempt::Done(r)
                        &&& result_view(r) == spec_numeric_output(outcome)
                        &&& final(db).storage@ == storage_after_numeric(
                            old(db).storage@,
                            tree_name@,
                            key@,
                            expiration,
                            outcome,
                        )
                    } else {
                        &&& attempt matches Attempt::Retry(current)
                        &&& option_view(current) == entry_of(
                            old(db).storage@.trees,
                            tree_name@,
                            key@,
                        )
                        &&& final(db).storage@ == old(db).storage@
                    }
                },
        },
{
    let ghost before = db.storage@;
    let (existing, expiration) = match numeric_base(observed) {
        Ok(base) => base,
        Err(e) => { return Attempt::Done(Err(e)); },
    };
    let outcome = op(&existing, amount, saturating);
    assert(op.ensures((&existing, amount, saturating), outcome));
    let value = match outcome {
        Some(value) => value,
        None => { return Attempt::Done(Err(Error::float_arithmetic())); },
    };
    let entry = Entry { value: Value::Numeric(value), expiration };
    let result_bytes = entry.encode();
    match db.storage.compare_and_swap(tree_name, key.as_bytes(), observed, Some(result_bytes)) {
        Swap::Swapped => {
            db.storage.update_key_expiration(
                ExpirationUpdate {
                    tree_key: TreeKey {
                        tree: String::from_str(tree_name),
                        key: String::from_str(key),
                    },
                    expiration,
                },
            );
            proof {
                lemma_write_keeps_schedule(
                    before,
                    tree_name@,
                    key@,
                    EntryView { value: ValueView::Numeric(value), expiration },
                );
            }
            Attempt::Done(Ok(Output::Value(Some(Value::Numeric(value)))))
        },
        Swap::Conflict(current) => Attempt::Retry(current),
    }
}

/// The mathematical content of an [`Attempt`].
pub enum AttemptView {
    /// The operation is over, with this result.
    Done(Result<OutputView, ErrorView>),
    /// The key holds what is attached, and nothing was changed.
    Retry(Option<Seq<u8>>),
}

impl View for Attempt {
    type V = AttemptView;

    open spec fn view(&self) -> AttemptView {
        match self {
            Attempt::Done(r) => AttemptView::Done(result_view(*r)),
            Attempt::Retry(held) => AttemptView::Retry(option_view(*held)),
        }
    }
}

/// One attempt at arithmetic on a key that holds `held`, by a writer that
/// saw it hold `observed`: what the key holds afterwards, and how the
/// attempt ends. `outcome` is what the arithmetic makes of the number that
/// it starts from.
pub open spec fn spec_attempt(
    held: Option<Seq<u8>>,
    observed: Option<Seq<u8>>,
    outcome: spec_fn(Numeric) -> Option<Numeric>,
) -> (Option<Seq<u8>>, AttemptView) {
    match spec_numeric_base(observed) {
        Err(e) => (held, AttemptView::Done(Err(e))),
        Ok((existing, expiration)) => match outcome(existing) {
            None => (held, AttemptView::Done(spec_numeric_output(None))),
            Some(v) => if held == observed {
                (
                    Some(encode_entry(EntryView { value: ValueView::Numeric(v), expiration })),
                    AttemptView::Done(spec_numeric_output(Some(v))),
                )
            } else {
                (held, AttemptView::Retry(held))
            },
        },
    }
}

/// One attempt at adding `amount` to the number that `key` of the tree
/// `tree_name` holds, made by a writer that saw the key hold `observed`;
/// see [`attempt_numeric_operation`] and [`spec_attempt`].
pub fn attempt_increment_operation<DB: Schema>(
    tree_name: &str,
    key: &str,
    db: &mut Database<DB>,
    observed: Option<&Vec<u8>>,
    amount: &Numeric,
    saturating: bool,
) -> (attempt: Attempt)
    requires
        old(db).wf(),
    ensures
        final(db).wf(),
        final(db).name == old(db).name,
        final(db).documents == old(db).documents,
        final(db).relay == old(db).relay,
        final(db).storage@.expirations == (if attempt matches Attempt::Done(Ok(_)) {
            schedule_after(
                old(db).storage@.expirations,
                (tree_name@, key@),
                spec_numeric_base(option_ref_view(observed))->Ok_0.1,
            )
        } else {
            old(db).storage@.expirations
        }),
        ({
            let (held, ended) = spec_attempt(
                entry_of(old(db).storage@.trees, tree_name@, key@),
                option_ref_view(observed),
                |existing: Numeric| spec_increment(existing, *amount, saturating),
            );
            &&& attempt@ == ended
            &&& final(db).storage@.trees == held_assign(
                old(db).storage@.trees,
                tree_name@,
                encode_utf8(key@),
                held,
            )
        }),
{
    let ghost trees = db.storage@.trees;
    let ghost held = entry_of(trees, tree_name@, key@);
    let attempt = attempt_numeric_operation(
        tree_name,
        key,
        db,
        observed,
        amount,
        saturating,
        &increment,
    );
    proof {
        assert(held_assign(trees, tree_name@, encode_utf8(key@), held) =~= trees);
    }
    attempt
}

/// Replaces the number that `key` of the tree `tree_name` holds by what `op`
/// makes of it and of `amount`, and returns the new number. A key without a
/// value counts as an unsigned zero. The entry keeps its expiration, and the
/// key is scheduled anew to expire then: a key whose entry has no
/// expiration is no longer scheduled.
///
/// Fails, and changes nothing, where the key holds what is no entry or an
/// entry of bytes, and where `op` gives no number.
pub fn execute_numeric_operation<DB: Schema, F: Fn(&Numeric, &Numeric, bool) -> Option<Numeric>>(
    tree_name: &str,
    key: &str,
    db: &mut Database<DB>,
    amount: &Numeric,
    saturating: bool,
    op: F,
) -> (r: Result<Output, Error>)
    requires
        old(db).wf(),
        forall|existing: &Numeric, amount: &Numeric, saturating: bool|
            op.requires((existing, amount, saturating)),
    ensures
        final(db).wf(),
        final(db).name == old(db).name,
        final(db).documents == old(db).documents,
        final(db).relay == old(db).relay,
        match spec_numeric_base(entry_of(old(db).storage@.trees, tree_name@, key@)) {
            Err(e) => {
                &&& result_view(r) == Err::<OutputView, ErrorView>(e)
                &&& final(db).storage@ == old(db).storage@
            },
            Ok((existing, expiration)) => exists|outcome: Option<Numeric>|
                {
                    &&& #[trigger] op.ensures((&existing, amount, saturating), outcome)
                    &&& result_view(r) == spec_numeric_output(outcome)
                    &&& final(db).storage@ == storage_after_numeric(
                        old(db).storage@,
                        tree_name@,
                        key@,
                        expiration,
                        outcome,
                    )
                },
        },
{
    let mut current = db.storage.get(tree_name, key.as_bytes());
    loop
        invariant
            db.wf(),
            db.name == old(db).name,
            db.documents == old(db).documents,
            db.relay == old(db).relay,
            db.storage@ == old(db).storage@,
            forall|existing: &Numeric, amount: &Numeric, saturating: bool|
                op.requires((existing, amount, saturating)),
            option_view(current) == entry_of(db.storage@.trees, tree_name@, key@),
        decreases 0nat,
    {
        match attempt_numeric_operation(
            tree_name,
            key,
            db,
            current.as_ref(),
            amount,
            saturating,
            &op,
        ) {
            Attempt::Done(r) => {
                return r;
            },
            Attempt::Retry(held_now) => {
                current = held_now;
            },
        }
    }
}

/// Adds `amount` to the number that `key` of the tree `tree_name` holds,
/// and returns the sum; see [`execute_numeric_operation`] and
/// [`increment`].
pub fn execute_increment_operation<DB: Schema>(
    tree_name: &str,
    key: &str,
    db: &mut Database<DB>,
    amount: &Numeric,
    saturating: bool,
) -> (r: Result<Output, Error>)
    requires
        old(db).wf(),
    ensures
        final(db).wf(),
        final(db).name == old(db).name,
        final(db).documents == old(db).documents,
        final(db).relay == old(db).relay,
        match spec_numeric_base(entry_of(old(db).storage@.trees, tree_name@, key@)) {
            Err(e) => {
                &&& result_view(r) == Err::<OutputView, ErrorView>(e)
                &&& final(db).storage@ == old(db).storage@
            },
            Ok((existing, expiration)) => {
                &&& result_view(r) == spec_numeric_output(
                    spec_increment(existing, *amount, saturating),
                )
                &&& final(db).storage@ == storage_after_numeric(
                    old(db).storage@,
                    tree_name@,
                    key@,
                    expiration,
                    spec_increment(existing, *amount, saturating),
                )
            },
        },
{
    execute_numeric_operation(tree_name, key, db, amount, saturating, increment)
}

/// Subtracts `amount` from the number that `key` of the tree `tree_name`
/// holds, and returns the difference; see [`execute_numeric_operation`] and
/// [`decrement`].
pub fn execute_decrement_operation<DB: Schema>(
    tree_name: &str,
    key: &str,
    db: &mut Database<DB>,
    amount: &Numeric,
    saturating: bool,
) -> (r: Result<Output, Error>)
    requires
        old(db).wf(),
    ensures
        final(db).wf(),
        final(db).name == old(db).name,
        final(db).documents == old(db).documents,
        final(db).relay == old(db).relay,
        match spec_numeric_base(entry_of(old(db).storage@.trees, tree_name@, key@)) {
            Err(e) => {
                &&& result_view(r) == Err::<OutputView, ErrorView>(e)
                &&& final(db).storage@ == old(db).storage@
            },
            Ok((existing, expiration)) => {
                &&& result_view(r) == spec_numeric_output(
                    spec_decrement(existing, *amount, saturating),
                )
                &&& final(db).storage@ == storage_after_numeric(
                    old(db).storage@,
                    tree_name@,
                    key@,
                    expiration,
                    spec_decrement(existing, *amount, saturating),
                )
            },
        },
{
    execute_numeric_operation(tree_name, key, db, amount, saturating, decrement)
}

/// The storage after arithmetic on a key, and what the operation returns:
/// `outcome` is what the arithmetic makes of the number that it starts from.
pub open spec fn spec_numeric_operation(
    s: StorageView,
    tree: Seq<char>,
    key: Seq<char>,
    outcome: spec_fn(Numeric) -> Option<Numeric>,
) -> (StorageView, Result<OutputView, ErrorView>) {
    match spec_numeric_base(entry_of(s.trees, tree, key)) {
        Err(e) => (s, Err(e)),
        Ok((existing, expiration)) => (
            storage_after_numeric(s, tree, key, expiration, outcome(existing)),
            spec_numeric_output(outcome(existing)),
        ),
    }
}

/// The storage after an operation on the key `key` of the tree `tree`, and
/// what the operation returns.
pub open spec fn spec_key_operation(
    s: StorageView,
    tree: Seq<char>,
    key: Seq<char>,
    command: Command,
) -> (StorageView, Result<OutputView, ErrorView>) {
    let existing = entry_of(s.trees, tree, key);
    match command {
        Command::SetKey {
            value,
            expiration,
            keep_existing_expiration,
            check,
            return_previous_value,
        } => (
            storage_after_set(s, tree, key, value@, expiration, keep_existing_expiration, check),
            Ok(spec_set_output(existing, check, return_previous_value)),
        ),
        Command::Get { delete } => (
            if delete {
                storage_after_removal(s, tree, key)
            } else {
                s
            },
            spec_get_output(existing),
        ),
        Command::Delete => (
            storage_after_removal(s, tree, key),
            Ok(
                OutputView::Status(
                    if existing is Some {
                        KeyStatus::Deleted
                    } else {
                        KeyStatus::NotChanged
                    },
                ),
            ),
        ),
        Command::Increment { amount, saturating } => spec_numeric_operation(
            s,
            tree,
            key,
            |existing: Numeric| spec_increment(existing, amount, saturating),
        ),
        Command::Decrement { amount, saturating } => spec_numeric_operation(
            s,
            tree,
            key,
            |existing: Numeric| spec_decrement(existing, amount, saturating),
        ),
    }
}

impl<S: Schema> Database<S> {
    /// Executes an operation of the key-value store on the namespace and
    /// the key that it names.
    pub fn execute_key_operation(&mut self, op: KeyOperation) -> (r: Result<Output, Error>)
        requires
            old(self).wf(),
        ensures
            final(self).wf(),
            final(self).name == old(self).name,
            final(self).documents == old(self).documents,
            final(self).relay == old(self).relay,
            (final(self).storage@, result_view(r)) == spec_key_operation(
                old(self).storage@,
                spec_key_tree(old(self).name@, namespace_or_default(op.namespace)),
                op.key@,
                op.command,
            ),
    {
        let KeyOperation { namespace, key, command } = op;
        let tree = key_tree(self.name.as_str(), namespace);
        match command {
            Command::SetKey {
                value,
                expiration,
                keep_existing_expiration,
                check,
                return_previous_value,
            } => execute_set_operation(
                tree.as_str(),
                key,
                value,
                expiration,
                keep_existing_expiration,
                check,
                return_previous_value,
                self,
            ),
            Command::Get { delete } => execute_get_operation(
                tree.as_str(),
                key.as_str(),
                delete,
                self,
            ),
            Command::Delete => execute_delete_operation(tree.as_str(), key, self),
            Command::Increment { amount, saturating } => execute_increment_operation(
                tree.as_str(),
                key.as_str(),
                self,
                &amount,
                saturating,
            ),
            Command::Decrement { amount, saturating } => execute_decrement_operation(
                tree.as_str(),
                key.as_str(),
                self,
                &amount,
                saturating,
            ),
        }
    }
}

/// A value that was set is the value that is read: after `SetKey` without a
/// check, `Get` returns the value that was stored.
pub proof fn lemma_set_then_get(
    s: StorageView,
    tree: Seq<char>,
    key: Seq<char>,
    value: ValueView,
    expiration: Option<Timestamp>,
    keep_existing_expiration: bool,
)
    requires
        value matches ValueView::Bytes(b) ==> b.len() <= u64::MAX,
    ensures
        spec_get_output(
            entry_of(
                storage_after_set(
                    s,
                    tree,
                    key,
                    value,
                    expiration,
                    keep_existing_expiration,
                    None,
                ).trees,
                tree,
                key,
            ),
        ) == Ok::<OutputView, ErrorView>(OutputView::Value(Some(value))),
{
    let kept = spec_kept_expiration(
        entry_of(s.trees, tree, key),
        expiration,
        keep_existing_expiration,
    );
    lemma_entry_round_trip(EntryView { value, expiration: kept });
}

/// Incrementing the signed number of a key by `x` and then by `-x`, without
/// saturation and without overflow on either step, returns the original
/// number and leaves it stored.
pub proof fn lemma_increment_then_opposite(
    s: StorageView,
    tree: Seq<char>,
    key: Seq<char>,
    original: i64,
    x: i64,
)
    requires
        spec_numeric_base(entry_of(s.trees, tree, key)) is Ok,
        spec_numeric_base(entry_of(s.trees, tree, key))->Ok_0.0 == Numeric::Integer(original),
        x != i64::MIN,
        i64::MIN <= original + x <= i64::MAX,
    ensures
        ({
            let first = spec_key_operation(
                s,
                tree,
                key,
                Command::Increment { amount: Numeric::Integer(x), saturating: false },
            );
            let second = spec_key_operation(
                first.0,
                tree,
                key,
                Command::Increment { amount: Numeric::Integer((-x) as i64), saturating: false },
            );
            &&& first.1 == Ok::<OutputView, ErrorView>(
                OutputView::Value(
                    Some(ValueView::Numeric(Numeric::Integer((original + x) as i64))),
                ),
            )
            &&& second.1 == Ok::<OutputView, ErrorView>(
                OutputView::Value(Some(ValueView::Numeric(Numeric::Integer(original)))),
            )
            &&& spec_stored_value(entry_of(second.0.trees, tree, key)) == Some(
                ValueView::Numeric(Numeric::Integer(original)),
            )
        }),
{
    let expiration = spec_numeric_base(entry_of(s.trees, tree, key))->Ok_0.1;
    lemma_increment_by_opposite(original, x);
    let middle = Numeric::Integer((original + x) as i64);
    lemma_entry_round_trip(EntryView { value: ValueView::Numeric(middle), expiration });
    lemma_entry_round_trip(
        EntryView { value: ValueView::Numeric(Numeric::Integer(original)), expiration },
    );
}

/// Whether the key is scheduled to expire at `now` or before.
pub open spec fn is_due(s: StorageView, now: Timestamp, tree_key: (Seq<char>, Seq<char>)) -> bool {
    s.expirations.contains_key(tree_key) && s.expirations[tree_key].spec_at_or_before(now)
}

/// Whether the place `p` of the keyspace is that of a key of `keys`.
pub open spec fn place_of_some(keys: Set<(Seq<char>, Seq<char>)>, p: (Seq<char>, Seq<u8>)) -> bool {
    valid_utf8(p.1) && keys.contains((p.0, decode_utf8(p.1)))
}

/// The storage without the keys of `keys`: they hold nothing and are not
/// scheduled.
pub open spec fn storage_without(s: StorageView, keys: Set<(Seq<char>, Seq<char>)>) -> StorageView {
    StorageView {
        trees: Map::new(
            |p: (Seq<char>, Seq<u8>)| s.trees.contains_key(p) && !place_of_some(keys, p),
            |p: (Seq<char>, Seq<u8>)| s.trees[p],
        ),
        expirations: s.expirations.remove_keys(keys),
    }
}

/// The keys that are due at `now`.
pub open spec fn due_keys(s: StorageView, now: Timestamp) -> Set<(Seq<char>, Seq<char>)> {
    Set::new(|tree_key: (Seq<char>, Seq<char>)| is_due(s, now, tree_key))
}

/// The storage after the keys that are due at `now` have expired.
pub open spec fn storage_after_expiry(s: StorageView, now: Timestamp) -> StorageView {
    storage_without(s, due_keys(s, now))
}

/// The earliest time at which a key expires, if any key does.
pub fn next_expiration<DB: Schema>(db: &Database<DB>) -> (next: Option<Timestamp>)
    requires
        db.wf(),
    ensures
        match next {
            Some(t) => {
                &&& exists|k: (Seq<char>, Seq<char>)|
                    db.storage@.expirations.contains_key(k) && db.storage@.expirations[k] == t
                &&& forall|k: (Seq<char>, Seq<char>)|
                    db.storage@.expirations.contains_key(k) ==> t.spec_at_or_before(
                        #[trigger] db.storage@.expirations[k],
                    )
            },
            None => forall|k: (Seq<char>, Seq<char>)| !db.storage@.expirations.contains_key(k),
        },
{
    let n = db.storage.scheduled_len();
    let mut next: Option<Timestamp> = None;
    let mut i: usize = 0;
    proof {
        db.storage.lemma_scheduled();
    }
    while i < n
        invariant
            db.storage.wf(),
            n == db.storage.scheduled().len(),
            i <= n,
            i == 0 <==> next is None,
            next matches Some(t) ==> exists|j: int|
                0 <= j < i && db.storage@.expirations[#[trigger] db.storage.scheduled()[j]] == t,
            next matches Some(t) ==> forall|j: int|
                0 <= j < i ==> t.spec_at_or_before(
                    db.storage@.expirations[#[trigger] db.storage.scheduled()[j]],
                ),
        decreases n - i,
    {
        let (_, t) = db.storage.scheduled_at(i);
        next = match next {
            Some(best) => if best.at_or_before(&t) {
                Some(best)
            } else {
                Some(t)
            },
            None => Some(t),
        };
        i += 1;
    }
    proof {
        db.storage.lemma_scheduled();
        if n > 0 {
            let t = next->0;
            let j = choose|j: int|
                0 <= j < i && db.storage@.expirations[#[trigger] db.storage.scheduled()[j]] == t;
            assert(db.storage@.expirations.contains_key(db.storage.scheduled()[j]));
            assert forall|k: (Seq<char>, Seq<char>)|
                db.storage@.expirations.contains_key(k) implies t.spec_at_or_before(
                #[trigger] db.storage@.expirations[k],
            ) by {
                let jj = choose|jj: int|
                    0 <= jj < db.storage.scheduled().len() && #[trigger] db.storage.scheduled()[jj]
                        == k;
                assert(t.spec_at_or_before(db.storage@.expirations[db.storage.scheduled()[jj]]));
            }
        } else {
            assert forall|k: (Seq<char>, Seq<char>)| !db.storage@.expirations.contains_key(k) by {
                if db.storage@.expirations.contains_key(k) {
                    let jj = choose|jj: int|
                        0 <= jj < db.storage.scheduled().len()
                            && #[trigger] db.storage.scheduled()[jj] == k;
                }
            }
        }
    }
    next
}

/// Removing keys from the trees and from the schedule keeps every expiring
/// entry scheduled.
pub proof fn lemma_without_keeps_schedule(s: StorageView, keys: Set<(Seq<char>, Seq<char>)>)
    requires
        schedule_covers(s),
    ensures
        schedule_covers(storage_without(s, keys)),
{
    let after = storage_without(s, keys);
    assert forall|t2: Seq<char>, k2: Seq<char>|
        (#[trigger] entry_expiration(after.trees, t2, k2)) is Some
            implies after.expirations.contains_key((t2, k2)) && after.expirations[(t2, k2)]
        == entry_expiration(after.trees, t2, k2)->0 by {
        encode_utf8_valid_utf8(k2);
        encode_utf8_decode_utf8(k2);
        assert(entry_expiration(s.trees, t2, k2) == entry_expiration(after.trees, t2, k2));
    }
}

/// One more key removed from a storage without some keys gives the storage
/// without those keys and that one.
pub proof fn lemma_without_one_more(
    s: StorageView,
    keys: Set<(Seq<char>, Seq<char>)>,
    tree: Seq<char>,
    key: Seq<char>,
)
    ensures
        storage_without(s, keys.insert((tree, key))) == (StorageView {
            trees: storage_without(s, keys).trees.remove((tree, encode_utf8(key))),
            expirations: storage_without(s, keys).expirations.remove((tree, key)),
        }),
{
    let more = storage_without(s, keys.insert((tree, key)));
    let step = StorageView {
        trees: storage_without(s, keys).trees.remove((tree, encode_utf8(key))),
        expirations: storage_without(s, keys).expirations.remove((tree, key)),
    };
    encode_utf8_valid_utf8(key);
    encode_utf8_decode_utf8(key);
    assert forall|p: (Seq<char>, Seq<u8>)| more.trees.contains_key(p) <==> step.trees.contains_key(
        p,
    ) by {
        if valid_utf8(p.1) {
            decode_utf8_encode_utf8(p.1);
        }
    }
    assert(more.trees =~= step.trees);
    assert(more.expirations =~= step.expirations);
}

/// Removes the keys that are due at `now`, from the trees and from the
/// schedule, and returns them.
///
/// Afterwards no entry of the store expires at `now` or before.
pub fn expire_keys<DB: Schema>(db: &mut Database<DB>, now: Timestamp) -> (expired: Vec<TreeKey>)
    requires
        old(db).wf(),
    ensures
        final(db).wf(),
        final(db).name == old(db).name,
        final(db).documents == old(db).documents,
        final(db).relay == old(db).relay,
        final(db).storage@ == storage_after_expiry(old(db).storage@, now),
        expired@.len() == due_keys(old(db).storage@, now).len(),
        forall|k: (Seq<char>, Seq<char>)|
            due_keys(old(db).storage@, now).contains(k) <==> exists|i: int|
                0 <= i < expired@.len() && (#[trigger] expired@[i])@ == k,
        forall|tree: Seq<char>, key: Seq<char>|
            (#[trigger] entry_expiration(final(db).storage@.trees, tree, key)) matches Some(t)
                ==> !t.spec_at_or_before(now),
{
    let ghost before = db.storage@;
    let ghost due = due_keys(before, now);
    let n = db.storage.scheduled_len();
    let mut expired: Vec<TreeKey> = Vec::new();
    let mut i: usize = 0;
    proof {
        db.storage.lemma_scheduled();
    }
    while i < n
        invariant
            db.storage.wf(),
            db.storage@ == before,
            n == db.storage.scheduled().len(),
            i <= n,
            db.storage.scheduled().no_duplicates(),
            expired@.len() <= i,
            forall|a: int| 0 <= a < expired@.len() ==> is_due(before, now, (#[trigger] expired@[a])@),
            forall|a: int|
                0 <= a < expired@.len() ==> exists|j: int|
                    0 <= j < i && db.storage.scheduled()[j] == (#[trigger] expired@[a])@,
            forall|a: int, b: int|
                0 <= a < b < expired@.len() ==> (#[trigger] expired@[a])@ != (
                #[trigger] expired@[b])@,
            forall|j: int|
                0 <= j < i && is_due(before, now, #[trigger] db.storage.scheduled()[j])
                    ==> exists|a: int| 0 <= a < expired@.len() && (#[trigger] expired@[a])@
                    == db.storage.scheduled()[j],
        decreases n - i,
    {
        let (tree_key, t) = db.storage.scheduled_at(i);
        if t.at_or_before(&now) {
            let ghost old_expired = expired@;
            let copy = tree_key.clone();
            expired.push(copy);
            proof {
                let last = expired@.len() - 1;
                assert(expired@[last]@ == db.storage.scheduled()[i as int]);
                assert forall|a: int| 0 <= a < expired@.len() implies exists|j: int|
                    0 <= j < i + 1 && db.storage.scheduled()[j] == (#[trigger] expired@[a])@ by {
                    if a < last {
                        assert(expired@[a] == old_expired[a]);
                        let j = choose|j: int|
                            0 <= j < i && db.storage.scheduled()[j] == old_expired[a]@;
                        assert(db.storage.scheduled()[j] == expired@[a]@);
                    } else {
                        assert(db.storage.scheduled()[i as int] == expired@[a]@);
                    }
                }
                assert forall|a: int, b: int| 0 <= a < b < expired@.len() implies (
                #[trigger] expired@[a])@ != (#[trigger] expired@[b])@ by {
                    if b == last {
                        assert(expired@[a] == old_expired[a]);
                        let j = choose|j: int|
                            0 <= j < i && db.storage.scheduled()[j] == old_expired[a]@;
                    } else {
                        assert(expired@[a] == old_expired[a]);
                        assert(expired@[b] == old_expired[b]);
                    }
                }
                assert forall|j: int|
                    0 <= j < i + 1 && is_due(
                        before,
                        now,
                        #[trigger] db.storage.scheduled()[j],
                    ) implies exists|a: int|
                    0 <= a < expired@.len() && (#[trigger] expired@[a])@
                        == db.storage.scheduled()[j] by {
                    if j < i {
                        let a = choose|a: int|
                            0 <= a < old_expired.len() && (#[trigger] old_expired[a])@
                                == db.storage.scheduled()[j];
                        assert(expired@[a] == old_expired[a]);
                    } else {
                        assert(expired@[last]@ == db.storage.scheduled()[j]);
                    }
                }
                assert forall|a: int| 0 <= a < expired@.len() implies is_due(
                    before,
                    now,
                    (#[trigger] expired@[a])@,
                ) by {
                    if a < last {
                        assert(expired@[a] == old_expired[a]);
                    }
                }
            }
        }
        i += 1;
    }
    let ghost listed = Seq::new(expired@.len(), |a: int| expired@[a]@);
    proof {
        db.storage.lemma_scheduled();
        assert forall|k: (Seq<char>, Seq<char>)| due.contains(k) <==> exists|a: int|
            0 <= a < expired@.len() && (#[trigger] expired@[a])@ == k by {
            if due.contains(k) {
                let j = choose|j: int|
                    0 <= j < db.storage.scheduled().len() && #[trigger] db.storage.scheduled()[j]
                        == k;
                assert(is_due(before, now, db.storage.scheduled()[j]));
            }
        }
        assert(listed.no_duplicates());
        assert forall|k: (Seq<char>, Seq<char>)| listed.to_set().contains(k) <==> due.contains(
            k,
        ) by {
            if listed.to_set().contains(k) {
                let a = choose|a: int| 0 <= a < listed.len() && listed[a] == k;
                assert(expired@[a]@ == k);
            }
            if due.contains(k) {
                let a = choose|a: int| 0 <= a < expired@.len() && (#[trigger] expired@[a])@ == k;
                assert(listed[a] == k);
            }
        }
        assert(listed.to_set() =~= due);
        listed.unique_seq_to_set();
    }
    let mut j: usize = 0;
    proof {
        assert(storage_without(before, Set::empty()).trees =~= before.trees);
        assert(storage_without(before, Set::empty()).expirations =~= before.expirations);
        assert(listed.take(0).to_set() =~= Set::<(Seq<char>, Seq<char>)>::empty());
    }
    while j < expired.len()
        invariant
            db.storage.wf(),
            db.name == old(db).name,
            db.documents == old(db).documents,
            db.relay == old(db).relay,
            j <= expired@.len(),
            listed == Seq::new(expired@.len(), |a: int| expired@[a]@),
            db.storage@ == storage_without(before, listed.take(j as int).to_set()),
        decreases expired@.len() - j,
    {
        let tree_key = &expired[j];
        db.storage.remove(tree_key.tree.as_str(), tree_key.key.as_str().as_bytes());
        db.storage.update_key_expiration(
            ExpirationUpdate { tree_key: tree_key.clone(), expiration: None },
        );
        proof {
            let done = listed.take(j as int).to_set();
            lemma_without_one_more(before, done, tree_key.tree@, tree_key.key@);
            assert(listed.take(j + 1) =~= listed.take(j as int).push(listed[j as int]));
            assert(listed.take(j + 1).to_set() =~= done.insert(listed[j as int])) by {
                let grown = listed.take(j + 1);
                assert forall|k: (Seq<char>, Seq<char>)| grown.to_set().contains(k)
                    <==> done.insert(listed[j as int]).contains(k) by {
                    if grown.to_set().contains(k) {
                        let a = choose|a: int| 0 <= a < grown.len() && grown[a] == k;
                        if a < j {
                            assert(listed.take(j as int)[a] == k);
                        }
                    }
                    if done.contains(k) {
                        let a = choose|a: int|
                            0 <= a < listed.take(j as int).len() && listed.take(j as int)[a] == k;
                        assert(grown[a] == k);
                    }
                    if k == listed[j as int] {
                        assert(grown[j as int] == k);
                    }
                }
            }
        }
        j += 1;
    }
    proof {
        assert(listed.take(expired@.len() as int) =~= listed);
        lemma_without_keeps_schedule(before, due);
        let after = storage_after_expiry(before, now);
        assert forall|tree: Seq<char>, key: Seq<char>|
            (#[trigger] entry_expiration(after.trees, tree, key)) is Some
                implies !entry_expiration(after.trees, tree, key)->0.spec_at_or_before(now) by {
            assert(after.expirations.contains_key((tree, key)));
        }
    }
    expired
}

/// After the keys that were due at `now` have expired, `Get` finds nothing
/// under a key whose entry was to expire at `now` or before.
pub proof fn lemma_expired_key_is_gone(
    s: StorageView,
    now: Timestamp,
    tree: Seq<char>,
    key: Seq<char>,
)
    requires
        schedule_covers(s),
        entry_expiration(s.trees, tree, key) is Some,
        entry_expiration(s.trees, tree, key)->0.spec_at_or_before(now),
    ensures
        spec_get_output(entry_of(storage_after_expiry(s, now).trees, tree, key)) == Ok::<
            OutputView,
            ErrorView,
        >(OutputView::Value(None)),
{
    encode_utf8_valid_utf8(key);
    encode_utf8_decode_utf8(key);
    assert(is_due(s, now, (tree, key)));
}

} // verus!
