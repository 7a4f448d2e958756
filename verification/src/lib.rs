//! An embeddable, single-process, in-memory key-value store with optional
//! per-key expiration, a secondary index over the values written under each
//! key, buffered transactions and snapshot encoding.

pub mod db;
