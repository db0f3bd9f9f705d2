//! A minimal in-memory key-value server core speaking a Redis-like wire
//! protocol: the byte-exact frame codec, the typed command model, the
//! expiring keyspace store, and the replication coordinator (master
//! fan-out and the replica handshake state machine).
//!
//! The surrounding process — sockets, the task runtime, the clock —
//! stays outside: it hands this library plain bytes and the current
//! time in milliseconds, and takes plain bytes and decisions back.

pub mod bytes;
pub mod command;
pub mod digits;
pub mod message;
pub mod replication;
pub mod store;
pub mod utf8;
