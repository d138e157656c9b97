//! Why a command to a region fails.

use crate::proto::metapb::{Peer, RegionEpoch};
use vstd::prelude::*;

verus! {

/// A failure that is none of the routing errors: what was wrong with the
/// command or with the state it met.
#[derive(Clone, Copy, Debug, PartialEq, Eq, Structural)]
pub enum Reason {
    /// The command's uuid is already pending.
    DuplicatedUuid,
    /// The command carries no uuid.
    MissingUuid,
    /// The command must carry an epoch and does not.
    MissingEpoch,
    /// A change of membership is already under way.
    PendingConfChange,
    /// The command names another peer than the one that received it.
    MismatchPeerId,
    /// The entry's index is not past what was applied.
    AppliedIndexMovedBackwards,
    /// The entry's index is zero or past what was committed.
    IndexOutOfRange,
    /// A transfer of leadership reached the log.
    TransferLeaderInLog,
    /// An administration command of no known kind.
    UnsupportedAdmin,
    /// A data command of no known kind.
    InvalidCmdType,
    /// A status command of no known kind.
    InvalidStatus,
    /// The peer to add is on a store that already has one.
    DuplicatedPeer,
    /// The peer to remove is on a store that has none.
    MissingPeer,
    /// A split without a key.
    MissingSplitKey,
    /// A split key at or before the region's start.
    InvalidSplitKey,
    /// A split with another number of new peer ids than the region has peers.
    InvalidPeerIdCount,
    /// An epoch counter cannot rise further.
    EpochOverflow,
    /// Compaction past what was applied.
    CompactIndexTooLarge,
    /// The term of the entry at the compaction point is not known.
    CompactTermUnknown,
    /// The region holds no peer on this store.
    NoPeerOnStore,
    /// The peer id zero.
    InvalidPeerId,
    /// The sender or the recipient of a message is in no record.
    UnknownPeer,
    /// A peer that was destroyed got a message from its own time.
    TombstoneConflict,
    /// An entry whose bytes do not decode.
    MalformedEntry,
    /// The consensus layer refused the proposal.
    ProposalDropped,
    /// A region for another id than it should have, for a range that holds
    /// no key, or for a range that overlaps another region of the store.
    RegionRejected,
    /// Bytes that are no key of a region record.
    InvalidMetaKey,
    /// A region of which the store already has a peer.
    DuplicatedRegion,
    /// The report that a snapshot was applied, for a peer that applies none.
    NotApplyingSnapshot,
    /// A snapshot could not be applied.
    SnapshotApplyFailed,
    /// Committed commands for a peer whose region the store has no record of.
    RegionNotRecorded,
    /// A setting that the store cannot run with.
    InvalidConfig,
}

/// Why a command failed, as the client is told.
#[derive(Debug, PartialEq, Eq)]
pub enum Error {
    /// The peer is not the leader, or the pending command was superseded.
    NotLeader { region_id: u64, leader: Option<Peer> },
    /// The store holds no live peer of the region.
    RegionNotFound { region_id: u64 },
    /// The peer is a placeholder that waits for its snapshot.
    RegionNotInitialized { region_id: u64 },
    /// The key lies outside the region.
    KeyNotInRegion { key: Vec<u8>, region_id: u64 },
    /// The command's epoch is older than the region's.
    StaleEpoch { latest: RegionEpoch },
    /// Transport or I/O did not answer in time.
    Timeout,
    /// Anything else.
    Other { reason: Reason },
}

impl Error {
    /// The failure without the bytes that it quotes.
    pub open spec fn kind(&self) -> ErrorKind {
        match *self {
            Error::NotLeader { region_id, leader } => ErrorKind::NotLeader { region_id, leader },
            Error::RegionNotFound { region_id } => ErrorKind::RegionNotFound { region_id },
            Error::RegionNotInitialized { region_id } => ErrorKind::RegionNotInitialized {
                region_id,
            },
            Error::KeyNotInRegion { key, region_id } => ErrorKind::KeyNotInRegion {
                key: key@,
                region_id,
            },
            Error::StaleEpoch { latest } => ErrorKind::StaleEpoch { latest },
            Error::Timeout => ErrorKind::Timeout,
            Error::Other { reason } => ErrorKind::Other { reason },
        }
    }
}

/// An `Error` as a mathematical value.
pub enum ErrorKind {
    NotLeader { region_id: u64, leader: Option<Peer> },
    RegionNotFound { region_id: u64 },
    RegionNotInitialized { region_id: u64 },
    KeyNotInRegion { key: Seq<u8>, region_id: u64 },
    StaleEpoch { latest: RegionEpoch },
    Timeout,
    Other { reason: Reason },
}

impl View for Error {
    type V = ErrorKind;

    open spec fn view(&self) -> ErrorKind {
        self.kind()
    }
}

} // verus!
