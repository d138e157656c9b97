//! Transactions over a snapshotable key-value engine: keys and mutations,
//! the engine as transactions see it, the multi-version layer, and the
//! store that clients talk to.

pub mod engine;
pub mod mvcc;
pub mod txn;
pub mod types;
