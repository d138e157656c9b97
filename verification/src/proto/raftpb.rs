//! What the consensus layer hands to a peer, reduced to what the peer's
//! decisions read.

use crate::proto::metapb::{Region, RegionView};
use crate::proto::raft_cmdpb::RaftCmdRequest;
use vstd::prelude::*;

verus! {

/// The two kinds of membership change.
#[derive(Clone, Copy, Debug, PartialEq, Eq, Structural)]
pub enum ConfChangeType {
    AddNode,
    RemoveNode,
}

/// The kinds of consensus message that routing tells apart.
#[derive(Clone, Copy, Debug, PartialEq, Eq, Structural)]
pub enum MessageType {
    MsgRequestVote,
    MsgSnapshot,
    MsgOther,
}

/// Whether a snapshot sent to a follower arrived.
#[derive(Clone, Copy, Debug, PartialEq, Eq, Structural)]
pub enum SnapshotStatus {
    Finish,
    Failure,
}

/// How the leader is currently replicating to one follower.
#[derive(Clone, Copy, Debug, PartialEq, Eq, Structural)]
pub enum ProgressState {
    Probe,
    Replicate,
    Snapshot,
}

/// The leader's record of one peer: how far its log is known to match.
#[derive(Clone, Copy, Debug, PartialEq, Eq, Structural)]
pub struct Progress {
    pub id: u64,
    pub matched: u64,
    pub state: ProgressState,
}

/// A consensus message between two peers of one region. `snapshot_region`
/// is the region that a snapshot message carries; `payload` is the message
/// itself, which only the consensus layer reads.
#[derive(Debug, PartialEq, Eq)]
pub struct Message {
    pub msg_type: MessageType,
    pub from: u64,
    pub to: u64,
    pub snapshot_region: Option<Region>,
    pub payload: Vec<u8>,
}

/// What a committed log entry holds.
#[derive(Debug, PartialEq, Eq)]
pub enum EntryData {
    /// Nothing: the marker a new leader appends.
    Empty,
    /// A client command.
    Normal(RaftCmdRequest),
    /// A membership change, with the command that asked for it.
    ConfChange(RaftCmdRequest),
    /// Bytes that do not decode to a command.
    Malformed,
}

/// A committed log entry. `compact_term` matters to an entry that asks for
/// log compaction: it is the term of the entry just before the compaction
/// point, where the log still tells it.
#[derive(Debug, PartialEq, Eq)]
pub struct Entry {
    pub index: u64,
    pub term: u64,
    pub data: EntryData,
    pub compact_term: Option<u64>,
}

/// A consensus message as a mathematical value.
pub struct MessageView {
    pub msg_type: MessageType,
    pub from: u64,
    pub to: u64,
    pub snapshot_region: Option<RegionView>,
    pub payload: Seq<u8>,
}

impl View for Message {
    type V = MessageView;

    open spec fn view(&self) -> MessageView {
        MessageView {
            msg_type: self.msg_type,
            from: self.from,
            to: self.to,
            snapshot_region: match self.snapshot_region {
                Some(r) => Some(r@),
                None => None,
            },
            payload: self.payload@,
        }
    }
}

impl Clone for Message {
    fn clone(&self) -> (m: Message)
        ensures
            m@ == self@,
    {
        Message {
            msg_type: self.msg_type,
            from: self.from,
            to: self.to,
            snapshot_region: match &self.snapshot_region {
                Some(r) => Some(r.clone()),
                None => None,
            },
            payload: crate::util::codec::order::to_vec(self.payload.as_slice()),
        }
    }
}

} // verus!
