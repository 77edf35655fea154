//! What a connection to the database speaks of: databases, ranges and
//! filters of queries, identities and sessions.

use crate::document::DocumentId;
use crate::order::{at_most, compare_bytes, less, Comparison};
use crate::schema::SchemaName;
use crate::text::str_equal;
use vstd::prelude::*;

verus! {

/// A database as a server lists it: its name and the schema it was created
/// with.
#[derive(Debug, PartialEq, Eq)]
pub struct Database {
    /// The name of the database.
    pub name: String,
    /// The schema of the database.
    pub schema: SchemaName,
}

impl Clone for Database {
    fn clone(&self) -> (r: Database)
        ensures
            r.name@ == self.name@,
            r.schema@ == self.schema@,
    {
        Database { name: self.name.clone(), schema: self.schema.clone() }
    }
}

/// One end of a range.
#[derive(Clone, Debug, PartialEq, Eq)]
pub enum Bound<T> {
    /// The range has no limit at this end.
    Unbounded,
    /// The range ends at this value, which belongs to it.
    Included(T),
    /// The range ends at this value, which does not belong to it.
    Excluded(T),
}

/// A range of values.
#[derive(Clone, Debug, PartialEq, Eq)]
pub struct Range<T> {
    /// Where the range starts.
    pub start: Bound<T>,
    /// Where the range ends.
    pub end: Bound<T>,
}

/// The order of the results of a query.
#[derive(Clone, Copy, Debug, PartialEq, Eq, Structural)]
pub enum Sort {
    /// From the least key to the greatest.
    Ascending,
    /// From the greatest key to the least.
    Descending,
}

/// A filter on the keys of a view.
#[derive(Clone, Debug, PartialEq, Eq)]
pub enum QueryKey<K> {
    /// The entries with this key.
    Matches(K),
    /// The entries with a key in this range.
    Range(Range<K>),
    /// The entries with one of these keys.
    Multiple(Vec<K>),
}

/// What a query does about changes that a view has not caught up with. The
/// views of this library are brought up to date with every transaction, so
/// the three policies give the same answers.
#[derive(Clone, Copy, Debug, PartialEq, Eq, Structural)]
pub enum AccessPolicy {
    /// Bring the view up to date before the query.
    UpdateBefore,
    /// Answer from the view as it is, and bring it up to date afterwards.
    UpdateAfter,
    /// Answer from the view as it is.
    NoUpdate,
}

/// Who a session acts as.
#[derive(Clone, Copy, Debug, PartialEq, Eq, Structural)]
pub enum Identity {
    /// The user with this id.
    User(u64),
    /// The role with this id.
    Role(u64),
}

/// The id of a session.
#[derive(Clone, Copy, Debug, PartialEq, Eq, Structural)]
pub struct SessionId(pub u64);

/// A permission: an action that may be performed on a resource. The text
/// `*` stands for every action, or for every resource.
#[derive(Debug, PartialEq, Eq)]
pub struct Statement {
    /// The action that is allowed.
    pub action: String,
    /// The resource on which it is allowed.
    pub resource: String,
}

impl Clone for Statement {
    fn clone(&self) -> (r: Statement)
        ensures
            r.action@ == self.action@,
            r.resource@ == self.resource@,
    {
        Statement { action: self.action.clone(), resource: self.resource.clone() }
    }
}

/// Whether `pattern` stands for `text`: it is `*`, or it is `text`.
pub open spec fn pattern_covers(pattern: Seq<char>, text: Seq<char>) -> bool {
    pattern == "*"@ || pattern == text
}

impl Statement {
    /// Whether the statement allows `action` on `resource`.
    pub open spec fn spec_allows(&self, action: Seq<char>, resource: Seq<char>) -> bool {
        pattern_covers(self.action@, action) && pattern_covers(self.resource@, resource)
    }

    /// Whether the statement allows `action` on `resource`.
    pub fn allows(&self, action: &str, resource: &str) -> (r: bool)
        ensures
            r == self.spec_allows(action@, resource@),
    {
        let action_fits = str_equal(self.action.as_str(), "*") || str_equal(
            self.action.as_str(),
            action,
        );
        let resource_fits = str_equal(self.resource.as_str(), "*") || str_equal(
            self.resource.as_str(),
            resource,
        );
        action_fits && resource_fits
    }
}

/// An authenticated context: who acts, and what they may do.
#[derive(Clone, Debug, PartialEq, Eq)]
pub struct Session {
    /// The id of the session; `None` for a session that no server tracks.
    pub id: Option<SessionId>,
    /// Who the session acts as; `None` is nobody in particular.
    pub identity: Option<Identity>,
    /// What the session may do.
    pub permissions: Vec<Statement>,
}

impl Session {
    /// Whether some statement of the session allows `action` on `resource`.
    pub open spec fn spec_allowed_to(&self, action: Seq<char>, resource: Seq<char>) -> bool {
        exists|i: int|
            0 <= i < self.permissions@.len() && (#[trigger] self.permissions@[i]).spec_allows(
                action,
                resource,
            )
    }

    /// Whether the session may perform `action` on `resource`.
    pub fn allowed_to(&self, action: &str, resource: &str) -> (r: bool)
        ensures
            r == self.spec_allowed_to(action@, resource@),
    {
        let mut i: usize = 0;
        while i < self.permissions.len()
            invariant
                i <= self.permissions@.len(),
                forall|j: int|
                    0 <= j < i ==> !(#[trigger] self.permissions@[j]).spec_allows(
                        action@,
                        resource@,
                    ),
            decreases self.permissions@.len() - i,
        {
            if self.permissions[i].allows(action, resource) {
                return true;
            }
            i += 1;
        }
        false
    }
}

/// A text that must not be shown, such as a password.
#[derive(Debug, PartialEq, Eq)]
pub struct SensitiveString(pub String);

impl Clone for SensitiveString {
    fn clone(&self) -> (r: SensitiveString)
        ensures
            r.0@ == self.0@,
    {
        SensitiveString(self.0.clone())
    }
}

/// A way to prove who one is.
#[derive(Debug, PartialEq, Eq)]
pub enum Authentication {
    /// By the password of the user.
    Password(SensitiveString),
}

impl Clone for Authentication {
    fn clone(&self) -> (r: Authentication)
        ensures
            r matches Authentication::Password(a) && self matches Authentication::Password(b)
                && a.0@ == b.0@,
    {
        match self {
            Authentication::Password(p) => Authentication::Password(p.clone()),
        }
    }
}

/// Whether `k` lies in the range: not before its start and not after its
/// end, and not at an end that is excluded.
pub open spec fn in_range(range: Range<Seq<u8>>, k: Seq<u8>) -> bool {
    &&& match range.start {
        Bound::Unbounded => true,
        Bound::Included(s) => at_most(s, k),
        Bound::Excluded(s) => less(s, k),
    }
    &&& match range.end {
        Bound::Unbounded => true,
        Bound::Included(e) => at_most(k, e),
        Bound::Excluded(e) => less(k, e),
    }
}

/// The mathematical content of a bound on ids.
pub open spec fn id_bound_view(bound: Bound<DocumentId>) -> Bound<Seq<u8>> {
    match bound {
        Bound::Unbounded => Bound::Unbounded,
        Bound::Included(id) => Bound::Included(id@),
        Bound::Excluded(id) => Bound::Excluded(id@),
    }
}

/// The mathematical content of a range of ids.
pub open spec fn id_range_view(range: Range<DocumentId>) -> Range<Seq<u8>> {
    Range { start: id_bound_view(range.start), end: id_bound_view(range.end) }
}

/// The mathematical content of a bound on keys.
pub open spec fn key_bound_view(bound: Bound<Vec<u8>>) -> Bound<Seq<u8>> {
    match bound {
        Bound::Unbounded => Bound::Unbounded,
        Bound::Included(k) => Bound::Included(k@),
        Bound::Excluded(k) => Bound::Excluded(k@),
    }
}

/// The mathematical content of a range of keys.
pub open spec fn key_range_view(range: Range<Vec<u8>>) -> Range<Seq<u8>> {
    Range { start: key_bound_view(range.start), end: key_bound_view(range.end) }
}

/// Whether `k` is not before a start at `limit`, which belongs to the range
/// if `inclusive`.
fn after_start(limit: &[u8], inclusive: bool, k: &[u8]) -> (r: bool)
    ensures
        r == (if inclusive {
            at_most(limit@, k@)
        } else {
            less(limit@, k@)
        }),
{
    match compare_bytes(limit, k) {
        Comparison::Less => true,
        Comparison::Equal => inclusive,
        Comparison::Greater => false,
    }
}

/// Whether `k` is not after an end at `limit`, which belongs to the range
/// if `inclusive`.
fn before_end(limit: &[u8], inclusive: bool, k: &[u8]) -> (r: bool)
    ensures
        r == (if inclusive {
            at_most(k@, limit@)
        } else {
            less(k@, limit@)
        }),
{
    match compare_bytes(k, limit) {
        Comparison::Less => true,
        Comparison::Equal => inclusive,
        Comparison::Greater => false,
    }
}

/// Whether the id `id` lies in the range.
pub fn id_in_range(range: &Range<DocumentId>, id: &[u8]) -> (r: bool)
    ensures
        r == in_range(id_range_view(*range), id@),
{
    let start_fits = match &range.start {
        Bound::Unbounded => true,
        Bound::Included(s) => after_start(s.as_bytes(), true, id),
        Bound::Excluded(s) => after_start(s.as_bytes(), false, id),
    };
    let end_fits = match &range.end {
        Bound::Unbounded => true,
        Bound::Included(e) => before_end(e.as_bytes(), true, id),
        Bound::Excluded(e) => before_end(e.as_bytes(), false, id),
    };
    start_fits && end_fits
}

/// Whether the key `k` lies in the range.
pub fn key_in_range(range: &Range<Vec<u8>>, k: &[u8]) -> (r: bool)
    ensures
        r == in_range(key_range_view(*range), k@),
{
    let start_fits = match &range.start {
        Bound::Unbounded => true,
        Bound::Included(s) => after_start(s.as_slice(), true, k),
        Bound::Excluded(s) => after_start(s.as_slice(), false, k),
    };
    let end_fits = match &range.end {
        Bound::Unbounded => true,
        Bound::Included(e) => before_end(e.as_slice(), true, k),
        Bound::Excluded(e) => before_end(e.as_slice(), false, k),
    };
    start_fits && end_fits
}

/// Whether the filter lets the key `k` pass; no filter lets every key
/// pass.
pub open spec fn key_matches(filter: Option<QueryKey<Vec<u8>>>, k: Seq<u8>) -> bool {
    match filter {
        None => true,
        Some(QueryKey::Matches(wanted)) => wanted@ == k,
        Some(QueryKey::Range(range)) => in_range(key_range_view(range), k),
        Some(QueryKey::Multiple(list)) => exists|i: int|
            0 <= i < list@.len() && (#[trigger] list@[i])@ == k,
    }
}

/// Whether `k` is one of the keys of `list`.
pub fn is_listed(list: &Vec<Vec<u8>>, k: &[u8]) -> (r: bool)
    ensures
        r == exists|i: int| 0 <= i < list@.len() && (#[trigger] list@[i])@ == k@,
{
    let mut i: usize = 0;
    while i < list.len()
        invariant
            i <= list@.len(),
            forall|j: int| 0 <= j < i ==> (#[trigger] list@[j])@ != k@,
        decreases list@.len() - i,
    {
        if crate::order::bytes_equal(list[i].as_slice(), k) {
            return true;
        }
        i += 1;
    }
    false
}

/// Whether the filter lets the key `k` pass.
pub fn key_passes(filter: &Option<QueryKey<Vec<u8>>>, k: &[u8]) -> (r: bool)
    ensures
        r == key_matches(*filter, k@),
{
    match filter {
        None => true,
        Some(QueryKey::Matches(wanted)) => crate::order::bytes_equal(wanted.as_slice(), k),
        Some(QueryKey::Range(range)) => key_in_range(range, k),
        Some(QueryKey::Multiple(list)) => is_listed(list, k),
    }
}

} // verus!
