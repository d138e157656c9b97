//! The state machine of one peer: what it does with a proposed command,
//! with a committed entry, and with what the consensus layer reports.

use crate::proto::metapb;
use crate::proto::metapb::{Region, RegionEpoch, RegionView};
use crate::proto::raft_cmdpb::{
    AdminRequest, CmdBody, RaftCmdRequest, RaftCmdResponse, RaftCmdResponseView,
};
use crate::proto::raft_serverpb::{RaftApplyState, RaftTruncatedState};
use crate::proto::raftpb::{ConfChangeType, Progress, ProgressState};
use crate::raftstore::errors::{Error, ErrorKind, Reason};
use crate::raftstore::store::cmd_resp;
use crate::raftstore::store::engine::{Snapshot, WriteBatch, WriteOpView};
use crate::raftstore::store::peer_storage::{ApplySnapResult, PeerStorage, SnapState};
use crate::raftstore::store::pending::{PendingCmd, PendingCmdQueue};
use crate::raftstore::store::util;
use std::collections::HashMap;
use vstd::prelude::*;

verus! {

broadcast use vstd::std_specs::hash::group_hash_axioms;

/// How far, in log entries, the target of a leader transfer may lag behind
/// the leader.
pub const TRANSFER_LEADER_ALLOW_LOG_LAG: u64 = 10;

/// The peers that the store has met, by their id.
pub type PeerCache = HashMap<u64, metapb::Peer>;

/// A callback together with the response to hand to it.
#[derive(Debug)]
pub struct Notification<C> {
    pub cb: C,
    pub resp: RaftCmdResponse,
}

/// What the store must do after an administration command was applied.
#[derive(Debug, PartialEq, Eq)]
pub enum ExecResult {
    ChangePeer { change_type: ConfChangeType, peer: metapb::Peer, region: Region },
    CompactLog { state: RaftTruncatedState },
    SplitRegion { left: Region, right: Region },
}

/// An `ExecResult` as a mathematical value.
pub enum ExecResultView {
    ChangePeer { change_type: ConfChangeType, peer: metapb::Peer, region: RegionView },
    CompactLog { state: RaftTruncatedState },
    SplitRegion { left: RegionView, right: RegionView },
}

impl View for ExecResult {
    type V = ExecResultView;

    open spec fn view(&self) -> ExecResultView {
        match *self {
            ExecResult::ChangePeer { change_type, peer, region } => ExecResultView::ChangePeer {
                change_type,
                peer,
                region: region@,
            },
            ExecResult::CompactLog { state } => ExecResultView::CompactLog { state },
            ExecResult::SplitRegion { left, right } => ExecResultView::SplitRegion {
                left: left@,
                right: right@,
            },
        }
    }
}

/// The view of an optional `ExecResult`.
pub open spec fn exec_result_view(r: Option<ExecResult>) -> Option<ExecResultView> {
    match r {
        Some(r) => Some(r@),
        None => None,
    }
}

/// What a ready asks of the store.
#[derive(Debug)]
pub struct ReadyResult {
    // We can execute multi commands like 1, conf change, 2 split region, ...
    // in one ready, and outer store should handle these results sequentially too.
    pub exec_results: Vec<ExecResult>,
    // apply_snap_result is set after snapshot applied.
    pub apply_snap_result: Option<ApplySnapResult>,
}

/// The role of a peer in its consensus group.
#[derive(Clone, Copy, Debug, PartialEq, Eq, Structural)]
pub enum StateRole {
    Follower,
    Candidate,
    Leader,
}

/// What the consensus layer last reported of itself.
#[derive(Debug)]
pub struct RaftStatus {
    pub term: u64,
    pub leader_id: u64,
    pub role: StateRole,
    /// Whether a change of membership is in the log and not yet applied.
    pub pending_conf: bool,
    /// On a leader, its record of every peer of the group.
    pub progress: Vec<Progress>,
}

/// One replica of a region, as far as its decisions go. `C` is the type of
/// the callbacks that resolve clients.
pub struct Peer<C> {
    pub peer: metapb::Peer,
    pub region_id: u64,
    pub raft_group: RaftStatus,
    pub store: PeerStorage,
    pub pending_cmds: PendingCmdQueue<C>,
    /// an inaccurate difference in region size since last reset.
    pub size_diff_hint: u64,
    // if we remove ourself in ChangePeer remove, we should set this flag, then
    // any following committed logs in same Ready should be applied failed.
    pub pending_remove: bool,
}

/// The place of the first record in `progress` about peer `id`, or the
/// length of `progress` if there is none.
pub open spec fn progress_position(progress: Seq<Progress>, id: u64) -> int
    decreases progress.len(),
{
    if progress.len() == 0 || progress[0].id == id {
        0
    } else {
        1 + progress_position(progress.drop_first(), id)
    }
}

/// Whether some peer is being sent a snapshot.
pub open spec fn any_in_snapshot(progress: Seq<Progress>) -> bool {
    exists|i: int| 0 <= i < progress.len() && (#[trigger] progress[i]).state == ProgressState::Snapshot
}

/// Whether leadership may be handed to peer `peer_id`: the leader has a
/// record of it, no peer is being sent a snapshot, and the target's log
/// lags at most `TRANSFER_LEADER_ALLOW_LOG_LAG` entries behind.
pub open spec fn transfer_leader_allowed(
    progress: Seq<Progress>,
    last_index: u64,
    peer_id: u64,
) -> bool {
    let p = progress_position(progress, peer_id);
    &&& p < progress.len()
    &&& !any_in_snapshot(progress)
    &&& last_index - progress[p].matched <= TRANSFER_LEADER_ALLOW_LOG_LAG
}

/// `progress_position` stays within the records and finds the peer.
pub proof fn lemma_progress_position(progress: Seq<Progress>, id: u64)
    ensures
        0 <= progress_position(progress, id) <= progress.len(),
        progress_position(progress, id) < progress.len() ==> progress[progress_position(
            progress,
            id,
        )].id == id,
        progress_position(progress, id) == progress.len() ==> forall|i: int|
            0 <= i < progress.len() ==> (#[trigger] progress[i]).id != id,
    decreases progress.len(),
{
    if !(progress.len() == 0 || progress[0].id == id) {
        let rest = progress.drop_first();
        lemma_progress_position(rest, id);
        if progress_position(progress, id) == progress.len() {
            assert forall|i: int| 0 <= i < progress.len() implies (#[trigger] progress[i]).id
                != id by {
                if i > 0 {
                    assert(progress[i] == rest[i - 1]);
                }
            }
        }
    }
}

/// Leadership is never handed over while some peer is being sent a
/// snapshot, nor to a target that lags more than
/// `TRANSFER_LEADER_ALLOW_LOG_LAG` entries behind the leader's log.
pub proof fn lemma_transfer_leader_refused(progress: Seq<Progress>, last_index: u64, peer_id: u64)
    ensures
        any_in_snapshot(progress) ==> !transfer_leader_allowed(progress, last_index, peer_id),
        progress_position(progress, peer_id) < progress.len() && last_index - progress[progress_position(
            progress,
            peer_id,
        )].matched > TRANSFER_LEADER_ALLOW_LOG_LAG ==> !transfer_leader_allowed(
            progress,
            last_index,
            peer_id,
        ),
        progress_position(progress, peer_id) >= progress.len() ==> !transfer_leader_allowed(
            progress,
            last_index,
            peer_id,
        ),
{
}

/// Which counters of its epoch a command must be current in.
pub open spec fn epoch_checks(req: &RaftCmdRequest) -> (bool, bool) {
    match req.body {
        CmdBody::Admin(AdminRequest::CompactLog { .. }) => (false, false),
        CmdBody::Admin(AdminRequest::InvalidAdmin) => (false, false),
        CmdBody::Admin(AdminRequest::Split { .. }) => (true, false),
        CmdBody::Admin(AdminRequest::ChangePeer { .. }) => (false, true),
        CmdBody::Admin(AdminRequest::TransferLeader { .. }) => (true, true),
        // for get/set/seek/delete, we don't care conf_version.
        _ => (true, false),
    }
}

/// What the epoch check says of a command that meets a region at epoch
/// `latest`: a command that needs an epoch and has none is refused; one
/// that is older in a counter that it must be current in is stale; an equal
/// epoch passes.
pub open spec fn spec_check_epoch(latest: RegionEpoch, req: &RaftCmdRequest) -> Result<
    (),
    ErrorKind,
> {
    let (check_ver, check_conf_ver) = epoch_checks(req);
    if !check_ver && !check_conf_ver {
        Ok(())
    } else {
        match req.header.region_epoch {
            None => Err(ErrorKind::Other { reason: Reason::MissingEpoch }),
            Some(from_epoch) => {
                if (check_conf_ver && from_epoch.conf_ver < latest.conf_ver) || (check_ver
                    && from_epoch.version < latest.version) {
                    Err(ErrorKind::StaleEpoch { latest })
                } else {
                    Ok(())
                }
            },
        }
    }
}

/// The view of a result whose error is an `Error`.
pub open spec fn unit_result_view(r: Result<(), Error>) -> Result<(), ErrorKind> {
    match r {
        Ok(()) => Ok(()),
        Err(e) => Err(e@),
    }
}

/// What looking up peer `peer_id` makes of the cache: a peer of the region
/// that the cache did not hold is added.
pub open spec fn spec_cache_lookup(
    cache: Map<u64, metapb::Peer>,
    peers: Seq<metapb::Peer>,
    peer_id: u64,
) -> (Option<metapb::Peer>, Map<u64, metapb::Peer>) {
    if cache.contains_key(peer_id) {
        (Some(cache[peer_id]), cache)
    } else {
        let p = peer_id_position(peers, peer_id);
        if p < peers.len() {
            (Some(peers[p]), cache.insert(peer_id, peers[p]))
        } else {
            (None, cache)
        }
    }
}

/// The place of the first peer of `peers` with id `peer_id`, or the length
/// of `peers` if there is none.
pub open spec fn peer_id_position(peers: Seq<metapb::Peer>, peer_id: u64) -> int
    decreases peers.len(),
{
    if peers.len() == 0 || peers[0].id == peer_id {
        0
    } else {
        1 + peer_id_position(peers.drop_first(), peer_id)
    }
}

/// The peer that a store keeps for a region of which it knows only the id:
/// a placeholder that waits for its first snapshot.
pub open spec fn spec_placeholder<C>(store_id: u64, region_id: u64, peer_id: u64) -> PeerView<C> {
    PeerView {
        peer: metapb::Peer { id: peer_id, store_id },
        region_id,
        raft_group: RaftStatusView {
            term: 0,
            leader_id: 0,
            role: StateRole::Follower,
            pending_conf: false,
            progress: Seq::empty(),
        },
        store: StorageView {
            region: RegionView {
                id: region_id,
                start_key: Seq::empty(),
                end_key: Seq::empty(),
                region_epoch: RegionEpoch { conf_ver: 0, version: 0 },
                peers: Seq::empty(),
            },
            raft_state: crate::proto::raft_serverpb::RaftLocalState {
                hard_state: crate::proto::raft_serverpb::HardState { term: 0, vote: 0, commit: 0 },
                last_index: 0,
            },
            apply_state: RaftApplyState {
                applied_index: 0,
                truncated_state: RaftTruncatedState { index: 0, term: 0 },
            },
            snap_state: SnapState::Relax,
        },
        normals: Seq::empty(),
        conf_change: None,
        size_diff_hint: 0,
        pending_remove: false,
    }
}

/// The response that tells the client of command `uuid` that leadership
/// may have changed.
pub open spec fn not_leader_response(
    region_id: u64,
    leader: Option<metapb::Peer>,
    uuid: u128,
    term: u64,
) -> RaftCmdResponseView {
    RaftCmdResponseView::of_error(ErrorKind::NotLeader { region_id, leader }).with_term(
        term,
    ).with_uuid(uuid)
}

/// The response that tells the client of command `uuid` that the region is
/// gone.
pub open spec fn region_removed_response(region_id: u64, uuid: u128) -> RaftCmdResponseView {
    RaftCmdResponseView::of_error(ErrorKind::RegionNotFound { region_id }).with_uuid(uuid)
}

/// Call the callback of `cmd` that the region is removed.
pub fn notify_region_removed<C>(region_id: u64, cmd: PendingCmd<C>) -> (n: Notification<C>)
    ensures
        n.cb == cmd.cb,
        n.resp@ == region_removed_response(region_id, cmd.uuid),
{
    let region_not_found = Error::RegionNotFound { region_id };
    let mut resp = cmd_resp::new_error(region_not_found);
    cmd_resp::bind_uuid(&mut resp, cmd.uuid);
    Notification { cb: cmd.cb, resp }
}

impl<C> Peer<C> {
    /// The representation invariant.
    pub open spec fn wf(&self) -> bool {
        &&& self.store.wf()
        &&& self.pending_cmds.wf()
        &&& self.region_id == self.store.region.id
    }

    // If we create the peer actively, like bootstrap/split/merge region, we should
    // use this function to create the peer. The region must contain the peer info
    // for this store.
    //
    /// Returns the peer and whether it should campaign at once, which it
    /// should where it is the region's only peer.
    pub fn create(store_id: u64, storage: PeerStorage) -> (r: Result<(Peer<C>, bool), Error>)
        requires
            storage.wf(),
        ensures
            match util::spec_find_peer(storage.region@.peers, store_id) {
                None => r matches Err(e) && e == (Error::Other { reason: Reason::NoPeerOnStore }),
                Some(p) => if p.id == 0 {
                    r matches Err(e) && e == (Error::Other { reason: Reason::InvalidPeerId })
                } else {
                    r matches Ok((peer, campaign)) && peer.is_new(store_id, p.id, storage)
                        && campaign == (storage.region@.peers.len() == 1)
                },
            },
    {
        let peer_id = match util::find_peer(&storage.region, store_id) {
            None => {
                return Err(Error::Other { reason: Reason::NoPeerOnStore });
            },
            Some(peer) => peer.id,
        };
        proof {
            util::lemma_peer_position(storage.region@.peers, store_id);
        }
        Peer::new(store_id, storage, peer_id)
    }

    /// A placeholder peer for a region that the store has only heard of: its
    /// range and peers come with a snapshot.
    pub fn replicate(store_id: u64, region_id: u64, peer_id: u64) -> (r: Result<
        (Peer<C>, bool),
        Error,
    >)
        ensures
            peer_id == 0 ==> (r matches Err(e) && e == (Error::Other {
                reason: Reason::InvalidPeerId,
            })),
            peer_id != 0 ==> (r matches Ok((peer, campaign)) && !campaign && peer.wf() && peer@
                == spec_placeholder::<C>(store_id, region_id, peer_id)),
    {
        let region = Region::new(region_id);
        let r = Peer::new(store_id, PeerStorage::fresh(region), peer_id);
        proof {
            if peer_id != 0 {
                let peer = r->Ok_0.0;
                assert(peer@.raft_group.progress =~= Seq::empty());
                assert(peer@.normals =~= Seq::empty());
            }
        }
        r
    }

    /// Whether `self` is the peer that `new` builds from these arguments.
    pub open spec fn is_new(&self, store_id: u64, peer_id: u64, storage: PeerStorage) -> bool {
        &&& self.wf()
        &&& self.peer == (metapb::Peer { id: peer_id, store_id })
        &&& self.region_id == storage.region.id
        &&& self.store == storage
        &&& self.raft_group.term == storage.raft_state.hard_state.term
        &&& self.raft_group.leader_id == 0
        &&& self.raft_group.role == StateRole::Follower
        &&& !self.raft_group.pending_conf
        &&& self.raft_group.progress@.len() == 0
        &&& self.pending_cmds.normals@.len() == 0
        &&& self.pending_cmds.conf_change is None
        &&& self.size_diff_hint == 0
        &&& !self.pending_remove
    }

    fn new(store_id: u64, storage: PeerStorage, peer_id: u64) -> (r: Result<
        (Peer<C>, bool),
        Error,
    >)
        requires
            storage.wf(),
        ensures
            peer_id == 0 ==> (r matches Err(e) && e == (Error::Other {
                reason: Reason::InvalidPeerId,
            })),
            peer_id != 0 ==> (r matches Ok((peer, campaign)) && peer.is_new(
                store_id,
                peer_id,
                storage,
            ) && campaign == (storage.region@.peers.len() == 1 && storage.region@.peers[0].store_id
                == store_id)),
    {
        if peer_id == 0 {
            return Err(Error::Other { reason: Reason::InvalidPeerId });
        }
        // If this region has only one peer and I am the one, campaign directly.
        let campaign = storage.region.peers.len() == 1 && storage.region.peers[0].store_id
            == store_id;
        let peer = Peer {
            peer: util::new_peer(store_id, peer_id),
            region_id: storage.region.id,
            raft_group: RaftStatus {
                term: storage.raft_state.hard_state.term,
                leader_id: 0,
                role: StateRole::Follower,
                pending_conf: false,
                progress: Vec::new(),
            },
            store: storage,
            pending_cmds: PendingCmdQueue::new(),
            size_diff_hint: 0,
            pending_remove: false,
        };
        Ok((peer, campaign))
    }

    /// Whether the peer knows the range and the peers of its region.
    pub fn is_initialized(&self) -> (b: bool)
        ensures
            b == (self.store.region@.peers.len() > 0),
    {
        self.store.is_initialized()
    }

    pub fn region(&self) -> (r: &Region)
        ensures
            r == &self.store.region,
    {
        self.store.get_region()
    }

    pub fn peer_id(&self) -> (id: u64)
        ensures
            id == self.peer.id,
    {
        self.peer.id
    }

    pub fn get_raft_status(&self) -> (s: &RaftStatus)
        ensures
            s == &self.raft_group,
    {
        &self.raft_group
    }

    pub fn leader_id(&self) -> (id: u64)
        ensures
            id == self.raft_group.leader_id,
    {
        self.raft_group.leader_id
    }

    pub fn is_leader(&self) -> (b: bool)
        ensures
            b == (self.raft_group.role == StateRole::Leader),
    {
        self.raft_group.role == StateRole::Leader
    }

    #[inline]
    pub fn get_store(&self) -> (s: &PeerStorage)
        ensures
            s == &self.store,
    {
        &self.store
    }

    /// The storage, to be changed in place; the rest of the peer stays as it is.
    #[inline]
    pub fn mut_store(&mut self) -> (s: &mut PeerStorage)
        ensures
            *s == old(self).store,
            *final(self) == (Peer { store: *final(s), ..*old(self) }),
    {
        &mut self.store
    }

    pub fn is_applying_snap(&self) -> (b: bool)
        ensures
            b == (self.store.snap_state == SnapState::Applying),
    {
        self.store.is_applying_snap()
    }

    pub fn term(&self) -> (t: u64)
        ensures
            t == self.raft_group.term,
    {
        self.raft_group.term
    }

    /// Takes over what the consensus layer reports of itself.
    pub fn set_raft_status(&mut self, status: RaftStatus)
        ensures
            final(self).raft_group == status,
            final(self).peer == old(self).peer,
            final(self).region_id == old(self).region_id,
            final(self).store == old(self).store,
            final(self).pending_cmds == old(self).pending_cmds,
            final(self).size_diff_hint == old(self).size_diff_hint,
            final(self).pending_remove == old(self).pending_remove,
    {
        self.raft_group = status;
    }

    /// Looks peer `peer_id` up in the cache and, failing that, among the
    /// peers of the region, which adds it to the cache.
    pub fn get_peer_from_cache(&self, cache: &mut PeerCache, peer_id: u64) -> (r: Option<
        metapb::Peer,
    >)
        ensures
            (r, final(cache)@) == spec_cache_lookup(old(cache)@, self.store.region@.peers, peer_id),
    {
        if let Some(peer) = cache.get(&peer_id) {
            return Some(*peer);
        }
        // Try to find in region, if found, set in cache.
        let peers = &self.store.region.peers;
        let mut i: usize = 0;
        assert(peers@.skip(0) =~= peers@);
        while i < peers.len()
            invariant
                i <= peers@.len(),
                peers == &self.store.region.peers,
                *cache == *old(cache),
                !old(cache)@.contains_key(peer_id),
                peer_id_position(peers@, peer_id) == i + peer_id_position(
                    peers@.skip(i as int),
                    peer_id,
                ),
            decreases peers@.len() - i,
        {
            assert(peers@.skip(i as int)[0] == peers@[i as int]);
            if peers[i].id == peer_id {
                let peer = peers[i];
                cache.insert(peer_id, peer);
                return Some(peer);
            }
            assert(peers@.skip(i as int).drop_first() =~= peers@.skip(i + 1));
            i += 1;
        }
        None
    }

    /// Call the callback of `cmd` that leadership may have been changed.
    ///
    /// Please note that, `NotLeader` here doesn't mean that currently this
    /// peer is not leader.
    pub fn notify_not_leader(&self, cache: &mut PeerCache, cmd: PendingCmd<C>) -> (n: Notification<
        C,
    >)
        ensures
            n.cb == cmd.cb,
            n.resp@ == not_leader_response(
                self.region_id,
                spec_cache_lookup(
                    old(cache)@,
                    self.store.region@.peers,
                    self.raft_group.leader_id,
                ).0,
                cmd.uuid,
                self.raft_group.term,
            ),
            final(cache)@ == spec_cache_lookup(
                old(cache)@,
                self.store.region@.peers,
                self.raft_group.leader_id,
            ).1,
    {
        let leader = self.get_peer_from_cache(cache, self.leader_id());
        let not_leader = Error::NotLeader { region_id: self.region_id, leader };
        let resp = cmd_resp::err_resp(not_leader, cmd.uuid, self.term());
        Notification { cb: cmd.cb, resp }
    }

    /// Whether leadership may be handed to `peer`.
    pub fn is_transfer_leader_allowed(&self, peer: &metapb::Peer) -> (b: bool)
        ensures
            b == transfer_leader_allowed(
                self.raft_group.progress@,
                self.store.raft_state.last_index,
                peer.id,
            ),
    {
        let peer_id = peer.id;
        let progress = &self.raft_group.progress;
        let mut target: usize = 0;
        assert(progress@.skip(0) =~= progress@);
        while target < progress.len() && progress[target].id != peer_id
            invariant
                target <= progress@.len(),
                progress_position(progress@, peer_id) == target + progress_position(
                    progress@.skip(target as int),
                    peer_id,
                ),
            decreases progress@.len() - target,
        {
            assert(progress@.skip(target as int)[0] == progress@[target as int]);
            assert(progress@.skip(target as int).drop_first() =~= progress@.skip(target + 1));
            target += 1;
        }
        proof {
            if target < progress.len() {
                assert(progress@.skip(target as int)[0] == progress@[target as int]);
            }
        }
        if target >= progress.len() {
            return false;
        }
        let mut i: usize = 0;
        while i < progress.len()
            invariant
                i <= progress@.len(),
                progress == &self.raft_group.progress,
                forall|k: int| 0 <= k < i ==> (#[trigger] progress@[k]).state != ProgressState::Snapshot,
            decreases progress@.len() - i,
        {
            match progress[i].state {
                ProgressState::Snapshot => {
                    assert(progress@[i as int].state == ProgressState::Snapshot);
                    return false;
                },
                _ => {},
            }
            i += 1;
        }
        let last_index = self.store.last_index();
        let matched = progress[target].matched;
        if last_index <= matched {
            true
        } else {
            last_index - matched <= TRANSFER_LEADER_ALLOW_LOG_LAG
        }
    }

    /// Checks the epoch of `req` against the region's.
    pub fn check_epoch(&self, req: &RaftCmdRequest) -> (r: Result<(), Error>)
        ensures
            unit_result_view(r) == spec_check_epoch(self.store.region.region_epoch, req),
    {
        let (mut check_ver, mut check_conf_ver) = (false, false);
        match &req.body {
            CmdBody::Admin(admin) => {
                match admin {
                    AdminRequest::CompactLog { .. } => {},
                    AdminRequest::InvalidAdmin => {},
                    AdminRequest::Split { .. } => {
                        check_ver = true;
                    },
                    AdminRequest::ChangePeer { .. } => {
                        check_conf_ver = true;
                    },
                    AdminRequest::TransferLeader { .. } => {
                        check_ver = true;
                        check_conf_ver = true;
                    },
                }
            },
            _ => {
                // for get/set/seek/delete, we don't care conf_version.
                check_ver = true;
            },
        }
        if !check_ver && !check_conf_ver {
            return Ok(());
        }
        let from_epoch = match req.header.region_epoch {
            None => {
                return Err(Error::Other { reason: Reason::MissingEpoch });
            },
            Some(e) => e,
        };
        let latest_epoch = self.store.region.region_epoch;
        // an equal epoch must still pass, for retries.
        if (check_conf_ver && from_epoch.conf_ver < latest_epoch.conf_ver) || (check_ver
            && from_epoch.version < latest_epoch.version) {
            return Err(Error::StaleEpoch { latest: latest_epoch });
        }
        Ok(())
    }
}

/// What the consensus layer last reported, as a mathematical value.
pub struct RaftStatusView {
    pub term: u64,
    pub leader_id: u64,
    pub role: StateRole,
    pub pending_conf: bool,
    pub progress: Seq<Progress>,
}

impl View for RaftStatus {
    type V = RaftStatusView;

    open spec fn view(&self) -> RaftStatusView {
        RaftStatusView {
            term: self.term,
            leader_id: self.leader_id,
            role: self.role,
            pending_conf: self.pending_conf,
            progress: self.progress@,
        }
    }
}

/// A peer's storage as a mathematical value.
pub struct StorageView {
    pub region: RegionView,
    pub raft_state: crate::proto::raft_serverpb::RaftLocalState,
    pub apply_state: RaftApplyState,
    pub snap_state: SnapState,
}

impl View for PeerStorage {
    type V = StorageView;

    open spec fn view(&self) -> StorageView {
        StorageView {
            region: self.region@,
            raft_state: self.raft_state,
            apply_state: self.apply_state,
            snap_state: self.snap_state,
        }
    }
}

/// A peer as a mathematical value.
pub struct PeerView<C> {
    pub peer: metapb::Peer,
    pub region_id: u64,
    pub raft_group: RaftStatusView,
    pub store: StorageView,
    pub normals: Seq<PendingCmd<C>>,
    pub conf_change: Option<PendingCmd<C>>,
    pub size_diff_hint: u64,
    pub pending_remove: bool,
}

impl<C> View for Peer<C> {
    type V = PeerView<C>;

    open spec fn view(&self) -> PeerView<C> {
        PeerView {
            peer: self.peer,
            region_id: self.region_id,
            raft_group: self.raft_group@,
            store: self.store@,
            normals: self.pending_cmds.normals@,
            conf_change: self.pending_cmds.conf_change,
            size_diff_hint: self.size_diff_hint,
            pending_remove: self.pending_remove,
        }
    }
}

/// A notification as a mathematical value.
pub struct NotificationView<C> {
    pub cb: C,
    pub resp: RaftCmdResponseView,
}

impl<C> View for Notification<C> {
    type V = NotificationView<C>;

    open spec fn view(&self) -> NotificationView<C> {
        NotificationView { cb: self.cb, resp: self.resp@ }
    }
}

/// The views of a list of notifications.
pub open spec fn notifications_view<C>(v: Seq<Notification<C>>) -> Seq<NotificationView<C>> {
    Seq::new(v.len(), |i: int| v[i]@)
}

/// The views of a list of results.
pub open spec fn exec_results_view(v: Seq<ExecResult>) -> Seq<ExecResultView> {
    Seq::new(v.len(), |i: int| v[i]@)
}

/// The views of a list of write batches.
pub open spec fn batches_view(v: Seq<WriteBatch>) -> Seq<Seq<WriteOpView>> {
    Seq::new(v.len(), |i: int| v[i]@)
}

/// Looking a peer up a second time finds the same peer and leaves the
/// cache as the first lookup left it.
pub proof fn lemma_cache_lookup_idempotent(
    cache: Map<u64, metapb::Peer>,
    peers: Seq<metapb::Peer>,
    peer_id: u64,
)
    ensures
        spec_cache_lookup(spec_cache_lookup(cache, peers, peer_id).1, peers, peer_id)
            == spec_cache_lookup(cache, peers, peer_id),
{
}

} // verus!
