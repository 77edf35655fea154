//! The schedule of the keys that expire.

use crate::database::kv::TreeKey;
use crate::keyvalue::Timestamp;
use vstd::prelude::*;

verus! {

/// A change to the expiration of one key.
#[derive(Debug, PartialEq, Eq)]
pub struct ExpirationUpdate {
    /// The key, with the tree that holds it.
    pub tree_key: TreeKey,
    /// When the key expires from now on; `None` is never.
    pub expiration: Option<Timestamp>,
}

/// For each key that expires, the time at which it does.
pub type Schedule = Map<(Seq<char>, Seq<char>), Timestamp>;

/// The schedule after an update: the key expires at the new time, or, if
/// there is none, is no longer scheduled.
pub open spec fn schedule_after(
    schedule: Schedule,
    tree_key: (Seq<char>, Seq<char>),
    expiration: Option<Timestamp>,
) -> Schedule {
    match expiration {
        Some(t) => schedule.insert(tree_key, t),
        None => schedule.remove(tree_key),
    }
}

} // verus!
