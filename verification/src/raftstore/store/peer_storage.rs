//! What a peer keeps about its region and its log: the region itself, how
//! far the log reaches, and how far it is committed, applied and compacted.

use crate::proto::metapb::Region;
use crate::proto::raft_serverpb::{HardState, RaftApplyState, RaftLocalState, RaftTruncatedState};
use crate::raftstore::errors::{Error, Reason};
use crate::raftstore::store::engine::{WriteBatch, WriteOp, WriteOpView};
use crate::raftstore::store::keys::{
    apply_state_key, raft_state_key, spec_apply_state_key, spec_raft_state_key,
};
use vstd::prelude::*;

verus! {

/// The term at which the log of a freshly created region starts.
pub const RAFT_INIT_LOG_TERM: u64 = 5;

/// The index at which the log of a freshly created region starts.
pub const RAFT_INIT_LOG_INDEX: u64 = 5;

/// Where a peer stands with snapshots.
#[derive(Clone, Copy, Debug, PartialEq, Eq, Structural)]
pub enum SnapState {
    /// Nothing under way.
    Relax,
    /// A snapshot for a follower is being generated.
    Generating,
    /// A generated snapshot waits to be sent.
    Snap,
    /// A received snapshot is being applied.
    Applying,
    /// Generation failed.
    Failed,
}

/// The region of a peer before and after a snapshot was applied.
#[derive(Debug, PartialEq, Eq)]
pub struct ApplySnapResult {
    pub prev_region: Region,
    pub region: Region,
}

/// One entry to append to the log: its position and its encoded bytes.
#[derive(Debug, PartialEq, Eq)]
pub struct LogEntry {
    pub index: u64,
    pub term: u64,
    pub data: Vec<u8>,
}

/// The snapshot that a leader sent: the log position it stands for and the
/// region as it was there.
#[derive(Debug, PartialEq, Eq)]
pub struct SnapshotMeta {
    pub index: u64,
    pub term: u64,
    pub region: Region,
}

/// The in-memory part of a peer's storage.
#[derive(Debug)]
pub struct PeerStorage {
    pub region: Region,
    pub raft_state: RaftLocalState,
    pub apply_state: RaftApplyState,
    pub snap_state: SnapState,
}

/// Whether the four log positions stand in order: nothing is compacted that
/// was not applied, applied that was not committed, committed that is not
/// in the log.
pub open spec fn indexes_ordered(raft_state: RaftLocalState, apply_state: RaftApplyState) -> bool {
    &&& apply_state.truncated_state.index <= apply_state.applied_index
    &&& apply_state.applied_index <= raft_state.hard_state.commit
    &&& raft_state.hard_state.commit <= raft_state.last_index
    &&& raft_state.last_index < u64::MAX
}

/// The consensus state with which the log of a new region starts.
pub open spec fn spec_initial_raft_state() -> RaftLocalState {
    RaftLocalState {
        hard_state: HardState { term: RAFT_INIT_LOG_TERM, vote: 0, commit: RAFT_INIT_LOG_INDEX },
        last_index: RAFT_INIT_LOG_INDEX,
    }
}

/// The applied and compacted positions with which a new region starts.
pub open spec fn spec_initial_apply_state() -> RaftApplyState {
    RaftApplyState {
        applied_index: RAFT_INIT_LOG_INDEX,
        truncated_state: RaftTruncatedState {
            index: RAFT_INIT_LOG_INDEX,
            term: RAFT_INIT_LOG_TERM,
        },
    }
}

/// The two writes that start the log of region `region_id`.
pub open spec fn spec_initial_state_writes(region_id: u64) -> Seq<WriteOpView> {
    seq![
        WriteOpView::PutRaftState {
            key: spec_raft_state_key(region_id),
            state: spec_initial_raft_state(),
        },
        WriteOpView::PutApplyState {
            key: spec_apply_state_key(region_id),
            state: spec_initial_apply_state(),
        },
    ]
}

/// Adds to `wb` the writes that start the log of region `region_id`.
pub fn write_initial_state(wb: &mut WriteBatch, region_id: u64)
    ensures
        final(wb)@ == old(wb)@ + spec_initial_state_writes(region_id),
{
    let raft_state = RaftLocalState {
        hard_state: HardState { term: RAFT_INIT_LOG_TERM, vote: 0, commit: RAFT_INIT_LOG_INDEX },
        last_index: RAFT_INIT_LOG_INDEX,
    };
    let apply_state = RaftApplyState {
        applied_index: RAFT_INIT_LOG_INDEX,
        truncated_state: RaftTruncatedState {
            index: RAFT_INIT_LOG_INDEX,
            term: RAFT_INIT_LOG_TERM,
        },
    };
    wb.push(WriteOp::PutRaftState { key: raft_state_key(region_id), state: raft_state });
    wb.push(WriteOp::PutApplyState { key: apply_state_key(region_id), state: apply_state });
    assert(wb@ =~= old(wb)@ + spec_initial_state_writes(region_id));
}

/// What compaction up to `compact_index` makes of the apply state: the
/// entry before `compact_index`, whose term is `term`, becomes the last one
/// cut away.
pub open spec fn spec_compact(
    state: RaftApplyState,
    compact_index: u64,
    term: Option<u64>,
) -> Result<RaftApplyState, Reason> {
    if compact_index <= state.truncated_state.index {
        Err(Reason::CompactIndexTooLarge)
    } else if compact_index > state.applied_index {
        Err(Reason::CompactIndexTooLarge)
    } else {
        match term {
            None => Err(Reason::CompactTermUnknown),
            Some(term) => Ok(
                RaftApplyState {
                    truncated_state: RaftTruncatedState {
                        index: (compact_index - 1) as u64,
                        term,
                    },
                    ..state
                },
            ),
        }
    }
}

impl PeerStorage {
    /// The representation invariant: the log positions stand in order.
    pub open spec fn wf(&self) -> bool {
        indexes_ordered(self.raft_state, self.apply_state)
    }

    /// Builds the storage of a peer from what the store has persisted for
    /// it. Fails where the positions do not stand in order.
    pub fn new(region: Region, raft_state: RaftLocalState, apply_state: RaftApplyState) -> (r:
        Result<PeerStorage, Error>)
        ensures
            r is Ok <==> indexes_ordered(raft_state, apply_state),
            r matches Ok(s) ==> s.wf() && s.region@ == region@ && s.raft_state == raft_state
                && s.apply_state == apply_state && s.snap_state == SnapState::Relax,
            r matches Err(e) ==> e == (Error::Other { reason: Reason::IndexOutOfRange }),
    {
        if apply_state.truncated_state.index <= apply_state.applied_index
            && apply_state.applied_index <= raft_state.hard_state.commit
            && raft_state.hard_state.commit <= raft_state.last_index && raft_state.last_index
            < u64::MAX {
            Ok(PeerStorage { region, raft_state, apply_state, snap_state: SnapState::Relax })
        } else {
            Err(Error::Other { reason: Reason::IndexOutOfRange })
        }
    }

    /// The storage of a peer that has nothing persisted: a placeholder
    /// starts at position zero, a region with peers at the initial position.
    pub fn fresh(region: Region) -> (s: PeerStorage)
        ensures
            s.wf(),
            s.region@ == region@,
            s.snap_state == SnapState::Relax,
            region@.peers.len() > 0 ==> s.raft_state == spec_initial_raft_state() && s.apply_state
                == spec_initial_apply_state(),
            region@.peers.len() == 0 ==> s.raft_state == (RaftLocalState {
                hard_state: HardState { term: 0, vote: 0, commit: 0 },
                last_index: 0,
            }) && s.apply_state == (RaftApplyState {
                applied_index: 0,
                truncated_state: RaftTruncatedState { index: 0, term: 0 },
            }),
    {
        let start: u64 = if region.peers.len() > 0 {
            RAFT_INIT_LOG_INDEX
        } else {
            0
        };
        let term: u64 = if region.peers.len() > 0 {
            RAFT_INIT_LOG_TERM
        } else {
            0
        };
        PeerStorage {
            region,
            raft_state: RaftLocalState {
                hard_state: HardState { term, vote: 0, commit: start },
                last_index: start,
            },
            apply_state: RaftApplyState {
                applied_index: start,
                truncated_state: RaftTruncatedState { index: start, term },
            },
            snap_state: SnapState::Relax,
        }
    }

    /// Whether the region's range is known: a placeholder has no peers yet.
    pub fn is_initialized(&self) -> (b: bool)
        ensures
            b == (self.region@.peers.len() > 0),
    {
        self.region.peers.len() > 0
    }

    pub fn get_region(&self) -> (r: &Region)
        ensures
            r == &self.region,
    {
        &self.region
    }

    pub fn applied_index(&self) -> (i: u64)
        ensures
            i == self.apply_state.applied_index,
    {
        self.apply_state.applied_index
    }

    pub fn truncated_index(&self) -> (i: u64)
        ensures
            i == self.apply_state.truncated_state.index,
    {
        self.apply_state.truncated_state.index
    }

    pub fn truncated_term(&self) -> (t: u64)
        ensures
            t == self.apply_state.truncated_state.term,
    {
        self.apply_state.truncated_state.term
    }

    /// The position of the first entry that the log still holds.
    pub fn first_index(&self) -> (i: u64)
        requires
            self.wf(),
        ensures
            i == self.apply_state.truncated_state.index + 1,
    {
        self.apply_state.truncated_state.index + 1
    }

    pub fn last_index(&self) -> (i: u64)
        ensures
            i == self.raft_state.last_index,
    {
        self.raft_state.last_index
    }

    pub fn commit_index(&self) -> (i: u64)
        ensures
            i == self.raft_state.hard_state.commit,
    {
        self.raft_state.hard_state.commit
    }

    pub fn is_applying_snap(&self) -> (b: bool)
        ensures
            b == (self.snap_state == SnapState::Applying),
    {
        self.is_snap_state(SnapState::Applying)
    }

    pub fn is_snap_state(&self, state: SnapState) -> (b: bool)
        ensures
            b == (self.snap_state == state),
    {
        self.snap_state == state
    }

    pub fn set_snap_state(&mut self, state: SnapState)
        ensures
            *final(self) == (PeerStorage { snap_state: state, ..*old(self) }),
    {
        self.snap_state = state;
    }

    /// Moves the compaction point of `state` to just before
    /// `compact_index`. `term` is the term of the entry that becomes the
    /// last one cut away, where the log still tells it.
    pub fn compact(&self, state: &mut RaftApplyState, compact_index: u64, term: Option<u64>) -> (r:
        Result<(), Error>)
        ensures
            match spec_compact(*old(state), compact_index, term) {
                Ok(s) => r is Ok && *final(state) == s,
                Err(reason) => r == Err::<(), Error>(Error::Other { reason }) && *final(state)
                    == *old(state),
            },
    {
        if compact_index <= state.truncated_state.index {
            return Err(Error::Other { reason: Reason::CompactIndexTooLarge });
        } else if compact_index > state.applied_index {
            return Err(Error::Other { reason: Reason::CompactIndexTooLarge });
        }
        match term {
            None => Err(Error::Other { reason: Reason::CompactTermUnknown }),
            Some(term) => {
                state.truncated_state = RaftTruncatedState { index: compact_index - 1, term };
                Ok(())
            },
        }
    }
}

/// Compaction never moves the compaction point past what was applied, and
/// never moves it back.
pub proof fn lemma_compact_keeps_order(
    raft_state: RaftLocalState,
    state: RaftApplyState,
    compact_index: u64,
    term: Option<u64>,
)
    requires
        indexes_ordered(raft_state, state),
        spec_compact(state, compact_index, term) is Ok,
    ensures
        indexes_ordered(raft_state, spec_compact(state, compact_index, term)->Ok_0),
        state.truncated_state.index <= spec_compact(
            state,
            compact_index,
            term,
        )->Ok_0.truncated_state.index,
        spec_compact(state, compact_index, term)->Ok_0.applied_index == state.applied_index,
{
}

} // verus!
