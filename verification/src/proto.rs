//! The messages that peers, stores and clients exchange, as plain values.

pub mod metapb;
pub mod raft_cmdpb;
pub mod raft_serverpb;
pub mod raftpb;
