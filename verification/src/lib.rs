//! A key-value store served over a line protocol: a sharded in-memory
//! engine with per-key time to live, a write-ahead log that is replayed on
//! start, snapshots, counters, and announcements of writes.
use vstd::prelude::*;

pub mod text;
pub mod protocol;
pub mod engine;
pub mod wal;
pub mod metrics;
pub mod config;
pub mod replication;
pub mod network;
pub mod benchmark;

verus! {

} // verus!
