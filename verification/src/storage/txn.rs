//! The store that clients talk to: reads at a timestamp, scans, and the
//! operations of transactions, each against a snapshot of the engine.

pub mod errors;
pub mod scanner;
pub mod shard;
pub mod store;
