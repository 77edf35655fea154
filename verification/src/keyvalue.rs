//! The key-value store: values, numeric operations and the operations that
//! read and replace entries.

pub mod numeric;

use crate::codec::copy_bytes;
use crate::keyvalue::numeric::Numeric;
use vstd::prelude::*;

verus! {

/// A point in time: whole seconds and nanoseconds since an epoch.
#[derive(Clone, Copy, Debug, PartialEq, Eq, Structural)]
pub struct Timestamp {
    /// Whole seconds since the epoch.
    pub seconds: u64,
    /// Nanoseconds past the whole second.
    pub nanos: u32,
}

impl Timestamp {
    /// Whether this point in time is not later than `other`.
    pub open spec fn spec_at_or_before(self, other: Timestamp) -> bool {
        self.seconds < other.seconds || (self.seconds == other.seconds && self.nanos <= other.nanos)
    }

    /// Whether this point in time is not later than `other`.
    pub fn at_or_before(&self, other: &Timestamp) -> (r: bool)
        ensures
            r == self.spec_at_or_before(*other),
    {
        self.seconds < other.seconds || (self.seconds == other.seconds && self.nanos <= other.nanos)
    }
}

/// The value of a key: bytes, or a number.
#[derive(Debug, PartialEq, Eq)]
pub enum Value {
    /// An opaque byte string.
    Bytes(Vec<u8>),
    /// A numeric value.
    Numeric(Numeric),
}

/// The mathematical content of a [`Value`].
pub enum ValueView {
    /// An opaque byte string.
    Bytes(Seq<u8>),
    /// A numeric value.
    Numeric(Numeric),
}

impl View for Value {
    type V = ValueView;

    open spec fn view(&self) -> ValueView {
        match self {
            Value::Bytes(b) => ValueView::Bytes(b@),
            Value::Numeric(n) => ValueView::Numeric(*n),
        }
    }
}

impl Clone for Value {
    fn clone(&self) -> (r: Value)
        ensures
            r@ == self@,
    {
        match self {
            Value::Bytes(b) => Value::Bytes(copy_bytes(b.as_slice())),
            Value::Numeric(n) => Value::Numeric(*n),
        }
    }
}

/// The view of an optional value.
pub open spec fn option_value_view(v: Option<Value>) -> Option<ValueView> {
    match v {
        Some(v) => Some(v@),
        None => None,
    }
}

/// A condition on the key that `SetKey` checks before it writes.
#[derive(Clone, Copy, Debug, PartialEq, Eq, Structural)]
pub enum KeyCheck {
    /// Write only if the key has a value.
    OnlyIfPresent,
    /// Write only if the key has no value.
    OnlyIfVacant,
}

/// What an operation did to the key.
#[derive(Clone, Copy, Debug, PartialEq, Eq, Structural)]
pub enum KeyStatus {
    /// The key had no value and has one now.
    Inserted,
    /// The value of the key was replaced.
    Updated,
    /// The key was removed.
    Deleted,
    /// Nothing was changed.
    NotChanged,
}

/// The operations of the key-value store.
#[derive(Clone, Debug, PartialEq, Eq)]
pub enum Command {
    /// Sets the key to a value.
    SetKey {
        /// The value to store.
        value: Value,
        /// When the key expires, if ever.
        expiration: Option<Timestamp>,
        /// Keeps the expiration that the key has, if it has a value already.
        keep_existing_expiration: bool,
        /// The condition under which the value is written; `None` writes always.
        check: Option<KeyCheck>,
        /// Returns the previous value in place of the status.
        return_previous_value: bool,
    },
    /// Reads the value of the key.
    Get {
        /// Removes the key in the same step.
        delete: bool,
    },
    /// Removes the key.
    Delete,
    /// Adds to the numeric value of the key.
    Increment {
        /// The amount to add.
        amount: Numeric,
        /// Clamps at the limits of the type in place of wrapping.
        saturating: bool,
    },
    /// Subtracts from the numeric value of the key.
    Decrement {
        /// The amount to subtract.
        amount: Numeric,
        /// Clamps at the limits of the type in place of wrapping.
        saturating: bool,
    },
}

/// An operation on one key of a namespace.
#[derive(Clone, Debug, PartialEq, Eq)]
pub struct KeyOperation {
    /// The namespace of the key; `None` is the default namespace.
    pub namespace: Option<String>,
    /// The key.
    pub key: String,
    /// What to do with it.
    pub command: Command,
}

/// The result of an operation.
#[derive(Clone, Debug, PartialEq, Eq)]
pub enum Output {
    /// What the operation did.
    Status(KeyStatus),
    /// A value that the operation read or stored.
    Value(Option<Value>),
}

/// The mathematical content of an [`Output`].
pub enum OutputView {
    /// What the operation did.
    Status(KeyStatus),
    /// A value that the operation read or stored.
    Value(Option<ValueView>),
}

impl View for Output {
    type V = OutputView;

    open spec fn view(&self) -> OutputView {
        match self {
            Output::Status(s) => OutputView::Status(*s),
            Output::Value(v) => OutputView::Value(option_value_view(*v)),
        }
    }
}

} // verus!
