//! One node's regions: their keys on disk, their peers, and the scheduler
//! that owns them.

pub mod apply;
pub mod cmd_resp;
pub mod config;
pub mod engine;
pub mod exec;
pub mod keys;
pub mod peer;
pub mod peer_storage;
pub mod pending;
pub mod propose;
pub mod ready;
pub mod region_ranges;
pub mod store;
pub mod store_msg;
pub mod store_ready;
pub mod store_tick;
pub mod task;
pub mod util;
