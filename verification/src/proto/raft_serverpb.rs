//! What a store persists about its peers, and the envelope in which
//! consensus messages travel between stores.

use crate::proto::metapb::{Peer, Region, RegionEpoch};
use crate::proto::raftpb::{Message, MessageView};
use vstd::prelude::*;

verus! {

/// The life stage of a peer as persisted.
#[derive(Clone, Copy, Debug, PartialEq, Eq, Structural)]
pub enum PeerState {
    Normal,
    Applying,
    Tombstone,
}

/// The persisted record of a region on this store.
#[derive(Debug, PartialEq, Eq)]
pub struct RegionLocalState {
    pub state: PeerState,
    pub region: Region,
}

/// The last log position that compaction has cut away.
#[derive(Clone, Copy, Debug, PartialEq, Eq, Structural)]
pub struct RaftTruncatedState {
    pub index: u64,
    pub term: u64,
}

/// How far the log has been applied and compacted.
#[derive(Clone, Copy, Debug, PartialEq, Eq, Structural)]
pub struct RaftApplyState {
    pub applied_index: u64,
    pub truncated_state: RaftTruncatedState,
}

/// The consensus state that must survive a restart.
#[derive(Clone, Copy, Debug, PartialEq, Eq, Structural)]
pub struct HardState {
    pub term: u64,
    pub vote: u64,
    pub commit: u64,
}

/// The persisted consensus state of a region on this store.
#[derive(Clone, Copy, Debug, PartialEq, Eq, Structural)]
pub struct RaftLocalState {
    pub hard_state: HardState,
    pub last_index: u64,
}

/// A consensus message on its way from one store to another.
#[derive(Debug, PartialEq, Eq)]
pub struct RaftMessage {
    pub region_id: u64,
    pub from_peer: Peer,
    pub to_peer: Peer,
    pub message: Option<Message>,
    pub region_epoch: Option<RegionEpoch>,
    pub is_tombstone: bool,
}

/// A consensus message on its way, as a mathematical value.
pub struct RaftMessageView {
    pub region_id: u64,
    pub from_peer: Peer,
    pub to_peer: Peer,
    pub message: Option<MessageView>,
    pub region_epoch: Option<RegionEpoch>,
    pub is_tombstone: bool,
}

impl View for RaftMessage {
    type V = RaftMessageView;

    open spec fn view(&self) -> RaftMessageView {
        RaftMessageView {
            region_id: self.region_id,
            from_peer: self.from_peer,
            to_peer: self.to_peer,
            message: match self.message {
                Some(m) => Some(m@),
                None => None,
            },
            region_epoch: self.region_epoch,
            is_tombstone: self.is_tombstone,
        }
    }
}

impl RaftMessage {
    /// The kind of the consensus message inside, if there is one.
    pub open spec fn spec_msg_type(&self) -> Option<crate::proto::raftpb::MessageType> {
        match self.message {
            Some(m) => Some(m.msg_type),
            None => None,
        }
    }
}

} // verus!
