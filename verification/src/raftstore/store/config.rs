//! The settings of a store.

use crate::raftstore::errors::{Error, Reason};
use vstd::prelude::*;

verus! {

/// The settings of a store. Intervals are in milliseconds unless the name
/// says otherwise.
#[derive(Clone, Copy, Debug, PartialEq, Eq, Structural)]
pub struct Config {
    /// The cadence of the consensus tick.
    pub raft_base_tick_interval: u64,
    pub raft_heartbeat_ticks: usize,
    pub raft_election_timeout_ticks: usize,
    pub raft_max_size_per_msg: u64,
    pub raft_max_inflight_msgs: usize,
    /// How often the log is looked at for compaction.
    pub raft_log_gc_tick_interval: u64,
    /// How far the slowest follower must be past the first log entry
    /// before the log is compacted up to it.
    pub raft_log_gc_threshold: u64,
    /// How many applied entries the log may hold before it is compacted
    /// whatever the followers have.
    pub raft_log_gc_limit: u64,
    /// How often regions are looked at for a split.
    pub split_region_check_tick_interval: u64,
    pub region_max_size: u64,
    pub region_split_size: u64,
    /// How much a region must have grown before it is scanned for a split.
    pub region_check_size_diff: u64,
    pub pd_heartbeat_tick_interval: u64,
    pub pd_store_heartbeat_tick_interval: u64,
    pub snap_mgr_gc_tick_interval: u64,
    /// How long, in seconds, a sent snapshot is kept.
    pub snap_gc_timeout: u64,
    pub notify_capacity: usize,
    pub messages_per_tick: usize,
    /// The storage capacity that the store advertises.
    pub capacity: u64,
}

/// The timers of a store. Each comes round again after its interval.
#[derive(Clone, Copy, Debug, PartialEq, Eq, Structural)]
pub enum Tick {
    Raft,
    RaftLogGc,
    SplitRegionCheck,
    PdHeartbeat,
    PdStoreHeartbeat,
    SnapGc,
}

/// Whether a store can run with the settings: heartbeats tick, an election
/// takes longer than a heartbeat, the log compaction settings are positive,
/// and a region is split at no more than its largest size.
pub open spec fn valid_config(cfg: Config) -> bool {
    &&& cfg.raft_heartbeat_ticks > 0
    &&& cfg.raft_election_timeout_ticks > cfg.raft_heartbeat_ticks
    &&& cfg.raft_log_gc_threshold >= 1
    &&& cfg.raft_log_gc_limit > 0
    &&& cfg.region_max_size >= cfg.region_split_size
}

impl Config {
    /// After how many milliseconds the timer `tick` is due again.
    pub open spec fn spec_tick_interval(&self, tick: Tick) -> u64 {
        match tick {
            Tick::Raft => self.raft_base_tick_interval,
            Tick::RaftLogGc => self.raft_log_gc_tick_interval,
            Tick::SplitRegionCheck => self.split_region_check_tick_interval,
            Tick::PdHeartbeat => self.pd_heartbeat_tick_interval,
            Tick::PdStoreHeartbeat => self.pd_store_heartbeat_tick_interval,
            Tick::SnapGc => self.snap_mgr_gc_tick_interval,
        }
    }

    /// After how many milliseconds the timer `tick` is due again.
    pub fn tick_interval(&self, tick: Tick) -> (ms: u64)
        ensures
            ms == self.spec_tick_interval(tick),
    {
        match tick {
            Tick::Raft => self.raft_base_tick_interval,
            Tick::RaftLogGc => self.raft_log_gc_tick_interval,
            Tick::SplitRegionCheck => self.split_region_check_tick_interval,
            Tick::PdHeartbeat => self.pd_heartbeat_tick_interval,
            Tick::PdStoreHeartbeat => self.pd_store_heartbeat_tick_interval,
            Tick::SnapGc => self.snap_mgr_gc_tick_interval,
        }
    }

    /// Checks that a store can run with the settings.
    pub fn validate(&self) -> (r: Result<(), Error>)
        ensures
            r is Ok <==> valid_config(*self),
            r matches Err(e) ==> e == (Error::Other { reason: Reason::InvalidConfig }),
    {
        if self.raft_heartbeat_ticks == 0 || self.raft_election_timeout_ticks
            <= self.raft_heartbeat_ticks || self.raft_log_gc_threshold < 1
            || self.raft_log_gc_limit == 0 || self.region_max_size < self.region_split_size {
            Err(Error::Other { reason: Reason::InvalidConfig })
        } else {
            Ok(())
        }
    }
}

} // verus!
