//! Core of a sharded, replicated, transactional key-value store: the per-region
//! replicated state machine, the store scheduler's decisions, and the
//! multi-version two-phase-commit transaction engine, each stated over
//! mathematical models and proved.

pub mod proto;
pub mod raftstore;
pub mod storage;
pub mod util;
