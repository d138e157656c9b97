//! The multi-version layer: locks, pages of committed versions, and the
//! two-phase commit that writes them.

pub mod chain;
pub mod errors;
pub mod laws;
pub mod meta;
pub mod txn;
