//! The core of an embedded document database: a key-value store with numeric
//! operations and expiring keys, a transactional document store with views,
//! a publish/subscribe broker, and the framing of its request protocol.
//!
//! The functions are verified against the contracts they declare; the few
//! that stand for a function of `bincode` or of the standard library say
//! so. Storage is an ordered keyspace in memory; time, transports, the
//! hashing of passwords and floating-point arithmetic are supplied by the
//! caller.

pub mod admin;
pub mod assoc;
pub mod codec;
pub mod connection;
pub mod database;
pub mod document;
pub mod error;
pub mod ids;
pub mod keyvalue;
pub mod multiplexer;
pub mod networking;
pub mod order;
pub mod permissions;
pub mod pubsub;
pub mod schema;
pub mod select;
pub mod server;
pub mod session;
pub mod sorted;
pub mod storage;
pub mod test_util;
pub mod text;
pub mod transaction;
pub mod tree;
