//! The storage engine, its secondary index and the facade that drives both.

pub mod clock;
pub mod index;
pub mod model;
pub mod query;
pub mod snapshot;
pub mod storage;
pub mod table;
