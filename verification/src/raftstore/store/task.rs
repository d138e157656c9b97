//! The work that a store hands to its background workers and to the
//! consensus layer.

use crate::proto::metapb;
use crate::proto::metapb::{Region, RegionEpoch, RegionView};
use crate::proto::raft_cmdpb::RaftCmdRequest;
use vstd::prelude::*;

verus! {

/// What a store reports of itself to the placement driver.
#[derive(Clone, Copy, Debug, PartialEq, Eq, Structural)]
pub struct StoreStats {
    pub store_id: u64,
    pub capacity: u64,
    pub available: u64,
    pub region_count: u32,
    pub sending_snap_count: u32,
    pub receiving_snap_count: u32,
}

/// One piece of work.
#[derive(Debug, PartialEq, Eq)]
pub enum Task {
    /// Report a region and its leader to the placement driver.
    PdHeartbeat { region: Region, peer: metapb::Peer },
    /// Report a split to the placement driver.
    PdReportSplit { left: Region, right: Region },
    /// Ask the placement driver for the ids of a split.
    PdAskSplit { region: Region, split_key: Vec<u8>, peer: metapb::Peer },
    /// Report the store to the placement driver.
    PdStoreHeartbeat { stats: StoreStats },
    /// Apply the snapshot that region `region_id` received.
    SnapApply { region_id: u64 },
    /// Delete the log entries of region `region_id` before `compact_idx`.
    Compact { region_id: u64, compact_idx: u64 },
    /// Scan a region for a split key.
    SplitCheck { region_id: u64, epoch: RegionEpoch, start_key: Vec<u8>, end_key: Vec<u8> },
    /// Have the peer of region `region_id` stand for election.
    Campaign { region_id: u64 },
    /// Tick the consensus layer of region `region_id`.
    RaftTick { region_id: u64 },
    /// Propose a command on the store's own behalf.
    Propose { request: RaftCmdRequest },
}

/// A piece of work as a mathematical value.
pub enum TaskView {
    PdHeartbeat { region: RegionView, peer: metapb::Peer },
    PdReportSplit { left: RegionView, right: RegionView },
    PdAskSplit { region: RegionView, split_key: Seq<u8>, peer: metapb::Peer },
    PdStoreHeartbeat { stats: StoreStats },
    SnapApply { region_id: u64 },
    Compact { region_id: u64, compact_idx: u64 },
    SplitCheck { region_id: u64, epoch: RegionEpoch, start_key: Seq<u8>, end_key: Seq<u8> },
    Campaign { region_id: u64 },
    RaftTick { region_id: u64 },
    Propose { request: RaftCmdRequest },
}

impl View for Task {
    type V = TaskView;

    open spec fn view(&self) -> TaskView {
        match *self {
            Task::PdHeartbeat { region, peer } => TaskView::PdHeartbeat { region: region@, peer },
            Task::PdReportSplit { left, right } => TaskView::PdReportSplit {
                left: left@,
                right: right@,
            },
            Task::PdAskSplit { region, split_key, peer } => TaskView::PdAskSplit {
                region: region@,
                split_key: split_key@,
                peer,
            },
            Task::PdStoreHeartbeat { stats } => TaskView::PdStoreHeartbeat { stats },
            Task::SnapApply { region_id } => TaskView::SnapApply { region_id },
            Task::Compact { region_id, compact_idx } => TaskView::Compact {
                region_id,
                compact_idx,
            },
            Task::SplitCheck { region_id, epoch, start_key, end_key } => TaskView::SplitCheck {
                region_id,
                epoch,
                start_key: start_key@,
                end_key: end_key@,
            },
            Task::Campaign { region_id } => TaskView::Campaign { region_id },
            Task::RaftTick { region_id } => TaskView::RaftTick { region_id },
            Task::Propose { request } => TaskView::Propose { request },
        }
    }
}

/// The views of a list of tasks.
pub open spec fn tasks_view(v: Seq<Task>) -> Seq<TaskView> {
    Seq::new(v.len(), |i: int| v[i]@)
}

/// Adds `task` behind the tasks in `tasks`.
pub fn push_task(tasks: &mut Vec<Task>, task: Task)
    ensures
        tasks_view(final(tasks)@) == tasks_view(old(tasks)@).push(task@),
{
    tasks.push(task);
    assert(tasks_view(tasks@) =~= tasks_view(old(tasks)@).push(task@));
}

} // verus!
