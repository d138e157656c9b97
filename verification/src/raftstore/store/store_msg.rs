//! What the store does with a consensus message from another store and
//! with a command from a client.

use crate::proto::metapb;
use crate::proto::metapb::{RegionEpoch, RegionView};
use crate::proto::raft_cmdpb::{
    CfName, CmdBody, RaftCmdRequest, RaftCmdResponse, RaftCmdResponseView, RaftResponseHeader, ResponseBody,
    ResponseBodyView, StatusRequest, StatusResponse, StatusResponseView,
};
use crate::proto::raft_serverpb::{PeerState, RaftMessage, RaftMessageView, RegionLocalState};
use crate::proto::raftpb::{Message, MessageType, MessageView};
use crate::raftstore::errors::{Error, ErrorKind, Reason};
use crate::raftstore::store::cmd_resp;
use crate::raftstore::store::engine::Snapshot;
use crate::raftstore::store::keys;
use crate::raftstore::store::peer::{
    spec_cache_lookup, spec_placeholder, Notification, NotificationView, Peer, PeerView, StateRole,
};
use crate::raftstore::store::pending::PendingCmd;
use crate::raftstore::store::propose::{
    propose_result_view, spec_on_proposed, spec_propose, ProposeOutcome, ProposeOutcomeView,
};
use crate::raftstore::store::ready::{destroyed_view, spec_destroyed, Destroyed};
use crate::raftstore::store::region_ranges::{
    enc_end, lemma_insert_region, lemma_remove_region, overlaps_other, registered,
};
use crate::raftstore::store::store::{
    lemma_peer_at, lemma_regions_of, pending_insert, regions_of, Store,
};
use crate::raftstore::store::util;
use crate::raftstore::store::util::{has_peer_on_store, spec_is_epoch_stale};
use vstd::prelude::*;

verus! {

broadcast use vstd::std_specs::hash::group_hash_axioms;

/// Whether a message is for this store and says of which epoch it is.
pub open spec fn spec_msg_valid(store_id: u64, msg: &RaftMessage) -> bool {
    msg.to_peer.store_id == store_id && msg.region_epoch is Some
}

/// The message that tells the sender of the stale message `msg` to destroy
/// itself: from the recipient back to the sender, with the current epoch.
pub open spec fn gc_message(msg: &RaftMessage, cur_epoch: RegionEpoch) -> RaftMessageView {
    RaftMessageView {
        region_id: msg.region_id,
        from_peer: msg.to_peer,
        to_peer: msg.from_peer,
        message: None,
        region_epoch: Some(cur_epoch),
        is_tombstone: true,
    }
}

/// What the store finds about a message that may be stale: `None` if it is
/// not; else the reply to it, if the sender is to be told to destroy
/// itself.
///
/// Where the store has a peer of the region, a message is stale if its
/// epoch is older than the region's and its sender is on no store of the
/// region; only a vote request is answered. Where the store has none but
/// remembers a peer that was destroyed, a message with an older epoch is
/// stale, and a vote request from a store outside the region is answered;
/// a message of the same membership count as the tombstone is an error.
pub open spec fn spec_msg_stale(
    peer_region: Option<RegionView>,
    tombstone: Option<RegionLocalState>,
    msg: &RaftMessage,
) -> Result<Option<Option<RaftMessageView>>, ErrorKind> {
    let from_epoch = msg.region_epoch->0;
    let is_vote_msg = msg.spec_msg_type() == Some(MessageType::MsgRequestVote);
    let from_store_id = msg.from_peer.store_id;
    match peer_region {
        Some(region) => if spec_is_epoch_stale(from_epoch, region.region_epoch)
            && !has_peer_on_store(region.peers, from_store_id) {
            // The message is stale and not in current region.
            Ok(
                Some(
                    if is_vote_msg {
                        Some(gc_message(msg, region.region_epoch))
                    } else {
                        None
                    },
                ),
            )
        } else {
            Ok(None)
        },
        // no exist, check with tombstone key.
        None => match tombstone {
            Some(local_state) => if local_state.state == PeerState::Tombstone {
                let region = local_state.region@;
                // The region in this peer is already destroyed
                if spec_is_epoch_stale(from_epoch, region.region_epoch) {
                    Ok(
                        Some(
                            if is_vote_msg && !has_peer_on_store(region.peers, from_store_id) {
                                Some(gc_message(msg, region.region_epoch))
                            } else {
                                None
                            },
                        ),
                    )
                } else if from_epoch.conf_ver == region.region_epoch.conf_ver {
                    Err(ErrorKind::Other { reason: Reason::TombstoneConflict })
                } else {
                    Ok(None)
                }
            } else {
                Ok(None)
            },
            None => Ok(None),
        },
    }
}

/// Whether `msg` brings a snapshot to a peer that waits for one, for a
/// range that overlaps another region of the store.
pub open spec fn spec_snapshot_overlapped<C>(
    peers: Map<u64, PeerView<C>>,
    ranges: Map<Seq<u8>, u64>,
    msg: &RaftMessage,
) -> bool {
    &&& peers.contains_key(msg.region_id)
    &&& peers[msg.region_id].store.region.peers.len() == 0
    &&& match msg.message {
        Some(m) => match m.snapshot_region {
            Some(region) => overlaps_other(regions_of(peers), ranges, region@),
            None => false,
        },
        None => false,
    }
}

/// What came of a consensus message.
pub enum MessageOutcome<C> {
    /// The message is not for this store or has no epoch: it is ignored.
    Invalid,
    /// The message told the peer to destroy itself; `destroyed` is what the
    /// destruction left, if the peer was destroyed.
    Gc { destroyed: Option<Destroyed<C>> },
    /// The message is stale: it is dropped; `reply`, if there is one, goes
    /// back to its sender.
    Stale { reply: Option<RaftMessage> },
    /// The message carries a snapshot that overlaps another region: it is
    /// dropped.
    Overlapped,
    /// The message is to be stepped into the consensus layer of the
    /// region. `created` tells whether the store made a placeholder peer for
    /// it.
    Step { message: Option<Message>, created: bool },
}

/// The view of an optional message.
pub open spec fn message_view(m: Option<Message>) -> Option<MessageView> {
    match m {
        Some(m) => Some(m@),
        None => None,
    }
}

/// The view of an optional envelope.
pub open spec fn envelope_view(m: Option<RaftMessage>) -> Option<RaftMessageView> {
    match m {
        Some(m) => Some(m@),
        None => None,
    }
}

impl<C> Store<C> {
    /// Whether the message is for this store and tells the epoch of its sender.
    pub fn is_raft_msg_valid(&self, msg: &RaftMessage) -> (r: bool)
        ensures
            r == spec_msg_valid(self.store.id, msg),
    {
        if msg.to_peer.store_id != self.store_id() {
            return false;
        }
        if msg.region_epoch.is_none() {
            return false;
        }
        true
    }

    /// The reply to the stale message `msg`: a message that tells its
    /// sender to destroy itself, if that is needed.
    pub fn handle_stale_msg(&self, msg: &RaftMessage, cur_epoch: &RegionEpoch, need_gc: bool) -> (r:
        Option<RaftMessage>)
        ensures
            envelope_view(r) == if need_gc {
                Some(gc_message(msg, *cur_epoch))
            } else {
                None
            },
    {
        if !need_gc {
            return None;
        }
        Some(
            RaftMessage {
                region_id: msg.region_id,
                from_peer: msg.to_peer,
                to_peer: msg.from_peer,
                message: None,
                region_epoch: Some(*cur_epoch),
                is_tombstone: true,
            },
        )
    }

    /// Finds out whether `msg` is stale. `tombstone` is what the store has
    /// persisted about the region, where it has no peer of it.
    pub fn is_msg_stale(&self, msg: &RaftMessage, tombstone: &Option<RegionLocalState>) -> (r:
        Result<Option<Option<RaftMessage>>, Error>)
        requires
            self.wf(),
            msg.region_epoch is Some,
        ensures
            match spec_msg_stale(
                if self.peers().contains_key(msg.region_id) {
                    Some(self.peers()[msg.region_id].store.region)
                } else {
                    None
                },
                *tombstone,
                msg,
            ) {
                Err(e) => r matches Err(err) && err@ == e,
                Ok(None) => r matches Ok(None),
                Ok(Some(reply)) => r matches Ok(Some(sent)) && envelope_view(sent) == reply,
            },
    {
        let region_id = msg.region_id;
        let from_epoch = match msg.region_epoch {
            Some(e) => e,
            None => RegionEpoch { conf_ver: 0, version: 0 },
        };
        let is_vote_msg = match &msg.message {
            Some(m) => match m.msg_type {
                MessageType::MsgRequestVote => true,
                _ => false,
            },
            None => false,
        };
        let from_store_id = msg.from_peer.store_id;

        // Let's consider following cases with three nodes [1, 2, 3] and 1 is leader:
        // a. 1 removes 2, 2 may still send MsgAppendResponse to 1.
        //  We should ignore this stale message and let 2 remove itself after
        //  applying the ConfChange log.
        // b. 2 is isolated, 1 removes 2. When 2 rejoins the cluster, 2 will
        //  send stale MsgRequestVote to 1 and 3, at this time, we should tell 2 to gc itself.
        // c. 2 is isolated but can communicate with 3. 1 removes 3.
        //  2 will send stale MsgRequestVote to 3, 3 should ignore this message.
        // d. 2 is isolated but can communicate with 3. 1 removes 2, then adds 4, remove 3.
        //  2 will send stale MsgRequestVote to 3, 3 should tell 2 to gc itself.
        // e. 2 is isolated. 1 adds 4, 5, 6, removes 3, 1. Now assume 4 is leader.
        //  After 2 rejoins the cluster, 2 may send stale MsgRequestVote to 1 and 3,
        //  1 and 3 will ignore this message. Later 4 will send messages to 2 and 2 will
        //  rejoin the raft group again.
        // f. 2 is isolated. 1 adds 4, 5, 6, removes 3, 1. Now assume 4 is leader, and 4 removes 2.
        //  unlike case e, 2 will be stale forever.
        if let Some(peer) = self.get_peer(region_id) {
            let region = &peer.store.region;
            let epoch = region.region_epoch;
            if util::is_epoch_stale(&from_epoch, &epoch) && util::find_peer(
                region,
                from_store_id,
            ).is_none() {
                // The message is stale and not in current region.
                return Ok(Some(self.handle_stale_msg(msg, &epoch, is_vote_msg)));
            }
            return Ok(None);
        }
        // no exist, check with tombstone key.

        if let Some(local_state) = tombstone {
            match local_state.state {
                PeerState::Tombstone => {
                    let region = &local_state.region;
                    let region_epoch = region.region_epoch;
                    // The region in this peer is already destroyed
                    if util::is_epoch_stale(&from_epoch, &region_epoch) {
                        let not_exist = util::find_peer(region, from_store_id).is_none();
                        return Ok(
                            Some(
                                self.handle_stale_msg(msg, &region_epoch, is_vote_msg && not_exist),
                            ),
                        );
                    }
                    if from_epoch.conf_ver == region_epoch.conf_ver {
                        return Err(Error::Other { reason: Reason::TombstoneConflict });
                    }
                },
                _ => {},
            }
        }
        Ok(None)
    }

    /// Destroys the peer of region `region_id`, unless the store has none
    /// or the peer is applying a snapshot: a peer cannot be destroyed while
    /// it does. The record of where the region ends goes with the peer.
    pub fn destroy_peer(&mut self, region_id: u64, snap: &Snapshot) -> (r: Option<Destroyed<C>>)
        requires
            old(self).wf(),
            snap.wf(),
        ensures
            final(self).wf(),
            final(self).cfg == old(self).cfg,
            final(self).store == old(self).store,
            final(self).peer_cache == old(self).peer_cache,
            final(self).pending_raft_groups == old(self).pending_raft_groups,
            ({
                let peers = old(self).peers();
                let ranges = old(self).region_ranges@;
                if peers.contains_key(region_id) && peers[region_id].store.snap_state
                    != crate::raftstore::store::peer_storage::SnapState::Applying {
                    &&& destroyed_view(r) == Some(
                        spec_destroyed(peers[region_id], snap.keys(CfName::Default)),
                    )
                    &&& final(self).peers() == peers.remove(region_id)
                    &&& final(self).region_ranges@ == if registered(
                        old(self).regions(),
                        ranges,
                        region_id,
                    ) {
                        ranges.remove(enc_end(peers[region_id].store.region))
                    } else {
                        ranges
                    }
                } else {
                    &&& r is None
                    &&& final(self).peers() == peers
                    &&& final(self).region_ranges@ == ranges
                }
            }),
    {
        let i = match self.peer_index(region_id) {
            None => {
                return None;
            },
            Some(i) => i,
        };
        proof {
            lemma_peer_at(self.region_peers@, i as int);
        }
        // We can't destroy a peer which is applying snapshot.
        if self.region_peers[i].is_applying_snap() {
            return None;
        }
        let ghost regions0 = self.regions();
        let ghost ranges0 = self.region_ranges@;
        let mut p = self.take_peer(i);
        let end_key = keys::enc_end_key(p.region());
        proof {
            lemma_remove_region(regions0, ranges0, region_id);
            assert(self.regions().insert(region_id, p.store.region@) =~= regions0);
            assert(regions0.remove(region_id) =~= self.regions());
        }
        if self.is_recorded(&end_key, region_id) {
            let _ = self.region_ranges.remove(end_key.as_slice());
        }
        Some(p.destroy(snap))
    }

    /// Takes in a message that tells the peer of its region to destroy
    /// itself: the peer is destroyed if its epoch is older than the
    /// message's.
    pub fn handle_gc_peer_msg(&mut self, msg: &RaftMessage, snap: &Snapshot) -> (r: Option<
        Destroyed<C>,
    >)
        requires
            old(self).wf(),
            snap.wf(),
            msg.region_epoch is Some,
        ensures
            final(self).wf(),
            final(self).cfg == old(self).cfg,
            final(self).store == old(self).store,
            final(self).peer_cache == old(self).peer_cache,
            final(self).pending_raft_groups == old(self).pending_raft_groups,
            ({
                let peers = old(self).peers();
                let ranges = old(self).region_ranges@;
                let region_id = msg.region_id;
                if peers.contains_key(region_id) && spec_is_epoch_stale(
                    peers[region_id].store.region.region_epoch,
                    msg.region_epoch->0,
                ) && peers[region_id].store.snap_state
                    != crate::raftstore::store::peer_storage::SnapState::Applying {
                    &&& destroyed_view(r) == Some(
                        spec_destroyed(peers[region_id], snap.keys(CfName::Default)),
                    )
                    &&& final(self).peers() == peers.remove(region_id)
                    &&& final(self).region_ranges@ == if registered(
                        old(self).regions(),
                        ranges,
                        region_id,
                    ) {
                        ranges.remove(enc_end(peers[region_id].store.region))
                    } else {
                        ranges
                    }
                } else {
                    &&& r is None
                    &&& final(self).peers() == peers
                    &&& final(self).region_ranges@ == ranges
                }
            }),
    {
        let region_id = msg.region_id;
        let from_epoch = match msg.region_epoch {
            Some(e) => e,
            None => RegionEpoch { conf_ver: 0, version: 0 },
        };
        let mut need_remove = false;
        if let Some(peer) = self.get_peer(region_id) {
            if util::is_epoch_stale(&peer.store.region.region_epoch, &from_epoch) {
                need_remove = true;
            }
        }
        if need_remove {
            self.destroy_peer(region_id, snap)
        } else {
            None
        }
    }

    /// Whether `msg` brings a snapshot to a peer that waits for one, for a
    /// range that overlaps another region of the store.
    pub fn is_snapshot_overlapped(&self, msg: &RaftMessage) -> (r: bool)
        requires
            self.wf(),
        ensures
            r == spec_snapshot_overlapped(self.peers(), self.region_ranges@, msg),
    {
        let peer = match self.get_peer(msg.region_id) {
            None => {
                return false;
            },
            Some(p) => p,
        };
        // Check if we can accept the snapshot
        if peer.is_initialized() {
            return false;
        }
        match &msg.message {
            Some(m) => match &m.snapshot_region {
                Some(snap_region) => self.overlaps_other(snap_region),
                None => false,
            },
            None => false,
        }
    }
}

/// The answer to a status command, and the cache after the leader was
/// looked up. The leader of a region is asked of any peer of it; the
/// detail of a region only of a peer that knows its range.
pub open spec fn spec_status<C>(
    peers: Map<u64, PeerView<C>>,
    cache: Map<u64, metapb::Peer>,
    req: &RaftCmdRequest,
) -> (Result<RaftCmdResponseView, ErrorKind>, Map<u64, metapb::Peer>) {
    let region_id = req.header.region_id;
    let kind = match req.body {
        CmdBody::Status(s) => s,
        _ => StatusRequest::InvalidStatus,
    };
    if kind == StatusRequest::InvalidStatus {
        (Err(ErrorKind::Other { reason: Reason::InvalidStatus }), cache)
    } else if !peers.contains_key(region_id) {
        (Err(ErrorKind::RegionNotFound { region_id }), cache)
    } else {
        let p = peers[region_id];
        let lookup = spec_cache_lookup(cache, p.store.region.peers, p.raft_group.leader_id);
        if kind == StatusRequest::RegionLeader {
            (
                Ok(
                    RaftCmdResponseView {
                        body: ResponseBodyView::Status(
                            StatusResponseView::RegionLeader { leader: lookup.0 },
                        ),
                        ..RaftCmdResponseView::empty()
                    }.with_term(p.raft_group.term),
                ),
                lookup.1,
            )
        } else if p.store.region.peers.len() == 0 {
            (Err(ErrorKind::RegionNotInitialized { region_id }), cache)
        } else {
            (
                Ok(
                    RaftCmdResponseView {
                        body: ResponseBodyView::Status(
                            StatusResponseView::RegionDetail {
                                region: p.store.region,
                                leader: lookup.0,
                            },
                        ),
                        ..RaftCmdResponseView::empty()
                    }.with_term(p.raft_group.term),
                ),
                lookup.1,
            )
        }
    }
}

/// The view of the answer to a status command.
pub open spec fn status_result_view(r: Result<RaftCmdResponse, Error>) -> Result<
    RaftCmdResponseView,
    ErrorKind,
> {
    match r {
        Ok(resp) => Ok(resp@),
        Err(e) => Err(e@),
    }
}

/// What a store decides about a command from a client, and what the
/// decision leaves of its peers, its cache and its pending regions.
///
/// A command without uuid is answered with an error. A status command is
/// answered by the store itself. Any other command needs a peer of its
/// region that is the leader and is the peer that the command names;
/// that peer then decides.
pub open spec fn spec_store_propose<C>(
    peers: Map<u64, PeerView<C>>,
    cache: Map<u64, metapb::Peer>,
    pending: Seq<u64>,
    req: &RaftCmdRequest,
    cb: C,
) -> (
    Result<ProposeOutcomeView<C>, ErrorKind>,
    Map<u64, PeerView<C>>,
    Map<u64, metapb::Peer>,
    Seq<u64>,
) {
    let respond = |resp: RaftCmdResponseView|
        Ok::<ProposeOutcomeView<C>, ErrorKind>(
            ProposeOutcomeView::Respond { notification: NotificationView { cb, resp } },
        );
    match req.spec_uuid() {
        None => (
            respond(
                RaftCmdResponseView::empty().with_error(
                    ErrorKind::Other { reason: Reason::MissingUuid },
                ),
            ),
            peers,
            cache,
            pending,
        ),
        Some(uuid) => {
            let resp = RaftCmdResponseView::empty().with_uuid(uuid);
            let region_id = req.header.region_id;
            if req.body is Status {
                // For status commands, we handle it here directly.
                let status = spec_status(peers, cache, req);
                (
                    respond(
                        match status.0 {
                            Err(e) => resp.with_error(e),
                            Ok(status_resp) => status_resp,
                        },
                    ),
                    peers,
                    status.1,
                    pending,
                )
            } else if !peers.contains_key(region_id) {
                (
                    respond(resp.with_error(ErrorKind::RegionNotFound { region_id })),
                    peers,
                    cache,
                    pending,
                )
            } else {
                let p = peers[region_id];
                let resp = resp.with_term(p.raft_group.term);
                if p.raft_group.role != StateRole::Leader {
                    let lookup = spec_cache_lookup(
                        cache,
                        p.store.region.peers,
                        p.raft_group.leader_id,
                    );
                    (
                        respond(
                            resp.with_error(ErrorKind::NotLeader { region_id, leader: lookup.0 }),
                        ),
                        peers,
                        lookup.1,
                        pending,
                    )
                } else if p.peer.id != req.header.peer.id {
                    (
                        respond(
                            resp.with_error(ErrorKind::Other { reason: Reason::MismatchPeerId }),
                        ),
                        peers,
                        cache,
                        pending,
                    )
                } else {
                    let out = spec_propose(
                        p,
                        cache,
                        PendingCmd { uuid, term: p.raft_group.term, cb },
                        req,
                        resp,
                    );
                    (
                        out.0,
                        peers.insert(region_id, out.1),
                        out.2,
                        if out.0 is Ok {
                            pending_insert(pending, region_id)
                        } else {
                            pending
                        },
                    )
                }
            }
        },
    }
}

impl<C> Store<C> {
    /// Handles a consensus message from another store. `tombstone` is what
    /// the store has persisted about the region of the message, which
    /// matters where the store has no peer of it; `snap` is the engine, from
    /// which the data of a peer that is destroyed is deleted.
    pub fn on_raft_message(
        &mut self,
        msg: RaftMessage,
        tombstone: &Option<RegionLocalState>,
        snap: &Snapshot,
    ) -> (r: Result<MessageOutcome<C>, Error>)
        requires
            old(self).wf(),
            snap.wf(),
        ensures
            final(self).wf(),
            final(self).cfg == old(self).cfg,
            final(self).store == old(self).store,
            ({
                let peers = old(self).peers();
                let ranges = old(self).region_ranges@;
                let region_id = msg.region_id;
                let unchanged = final(self).peers() == peers && final(self).region_ranges@
                    == ranges && final(self).peer_cache@ == old(self).peer_cache@ && final(self).pending_raft_groups@ == old(self).pending_raft_groups@;
                if !spec_msg_valid(old(self).store.id, &msg) {
                    r matches Ok(MessageOutcome::Invalid) && unchanged
                } else if msg.is_tombstone {
                    &&& r matches Ok(MessageOutcome::Gc { destroyed })
                    &&& final(self).peer_cache@ == old(self).peer_cache@
                    &&& final(self).pending_raft_groups@ == old(self).pending_raft_groups@
                    &&& if peers.contains_key(region_id) && spec_is_epoch_stale(
                        peers[region_id].store.region.region_epoch,
                        msg.region_epoch->0,
                    ) && peers[region_id].store.snap_state
                        != crate::raftstore::store::peer_storage::SnapState::Applying {
                        &&& r matches Ok(MessageOutcome::Gc { destroyed: d }) && destroyed_view(d)
                            == Some(spec_destroyed(peers[region_id], snap.keys(CfName::Default)))
                        &&& final(self).peers() == peers.remove(region_id)
                        &&& final(self).region_ranges@ == if registered(
                            old(self).regions(),
                            ranges,
                            region_id,
                        ) {
                            ranges.remove(enc_end(peers[region_id].store.region))
                        } else {
                            ranges
                        }
                    } else {
                        &&& r matches Ok(MessageOutcome::Gc { destroyed: None })
                        &&& final(self).peers() == peers
                        &&& final(self).region_ranges@ == ranges
                    }
                } else {
                    match spec_msg_stale(
                        if peers.contains_key(region_id) {
                            Some(peers[region_id].store.region)
                        } else {
                            None
                        },
                        *tombstone,
                        &msg,
                    ) {
                        Err(e) => r matches Err(err) && err@ == e && unchanged,
                        Ok(Some(reply)) => r matches Ok(MessageOutcome::Stale { reply: sent })
                            && envelope_view(sent) == reply && unchanged,
                        Ok(None) => if !peers.contains_key(region_id) && msg.to_peer.id == 0 {
                            r matches Err(err) && err@ == (ErrorKind::Other {
                                reason: Reason::InvalidPeerId,
                            }) && unchanged
                        } else {
                            let peers1 = if peers.contains_key(region_id) {
                                peers
                            } else {
                                peers.insert(
                                    region_id,
                                    spec_placeholder::<C>(
                                        old(self).store.id,
                                        region_id,
                                        msg.to_peer.id,
                                    ),
                                )
                            };
                            &&& final(self).peers() == peers1
                            &&& final(self).region_ranges@ == ranges
                            &&& if spec_snapshot_overlapped(peers1, ranges, &msg) {
                                &&& r matches Ok(MessageOutcome::Overlapped)
                                &&& final(self).peer_cache@ == old(self).peer_cache@
                                &&& final(self).pending_raft_groups@ == old(self).pending_raft_groups@
                            } else {
                                &&& r matches Ok(MessageOutcome::Step { message, created })
                                    && message_view(message) == message_view(msg.message)
                                    && created == !peers.contains_key(region_id)
                                &&& final(self).peer_cache@ == old(self).peer_cache@.insert(
                                    msg.from_peer.id,
                                    msg.from_peer,
                                ).insert(msg.to_peer.id, msg.to_peer)
                                &&& final(self).pending_raft_groups@ == pending_insert(
                                    old(self).pending_raft_groups@,
                                    region_id,
                                )
                            }
                        },
                    }
                }
            }),
    {
        let region_id = msg.region_id;
        if !self.is_raft_msg_valid(&msg) {
            return Ok(MessageOutcome::Invalid);
        }
        if msg.is_tombstone {
            // we receive a message tells us to remove ourself.
            let destroyed = self.handle_gc_peer_msg(&msg, snap);
            return Ok(MessageOutcome::Gc { destroyed });
        }
        match self.is_msg_stale(&msg, tombstone) {
            Err(e) => {
                return Err(e);
            },
            Ok(Some(reply)) => {
                return Ok(MessageOutcome::Stale { reply });
            },
            Ok(None) => {},
        }
        let mut created = false;
        if self.peer_index(region_id).is_none() {
            let peer = match Peer::replicate(self.store_id(), region_id, msg.to_peer.id) {
                Ok((peer, _)) => peer,
                Err(e) => {
                    return Err(e);
                },
            };
            // We don't have start_key of the region, so there is no need to insert into
            // region_ranges
            proof {
                crate::raftstore::store::store::lemma_put_peer(self.region_peers@, peer);
                lemma_regions_of(self.peers(), region_id, peer@);
                lemma_insert_region(self.regions(), self.region_ranges@, peer@.store.region, false);
            }
            self.region_peers.push(peer);
            created = true;
        }
        if self.is_snapshot_overlapped(&msg) {
            return Ok(MessageOutcome::Overlapped);
        }
        self.insert_peer_cache(msg.from_peer);
        self.insert_peer_cache(msg.to_peer);

        // Add into pending raft groups for later handling ready.
        self.add_pending(region_id);
        Ok(MessageOutcome::Step { message: msg.message, created })
    }

    /// Answers a question about a region. Such a command never goes to the
    /// log.
    pub fn execute_status_command(&mut self, request: &RaftCmdRequest) -> (r: Result<
        RaftCmdResponse,
        Error,
    >)
        requires
            old(self).wf(),
        ensures
            final(self).wf(),
            final(self).cfg == old(self).cfg,
            final(self).store == old(self).store,
            final(self).region_peers == old(self).region_peers,
            final(self).region_ranges == old(self).region_ranges,
            final(self).pending_raft_groups == old(self).pending_raft_groups,
            ({
                let out = spec_status(old(self).peers(), old(self).peer_cache@, request);
                &&& status_result_view(r) == out.0
                &&& final(self).peer_cache@ == out.1
            }),
    {
        let region_id = request.header.region_id;
        let kind = match &request.body {
            CmdBody::Status(s) => *s,
            _ => StatusRequest::InvalidStatus,
        };
        let response = match kind {
            StatusRequest::RegionLeader => self.execute_region_leader(region_id),
            StatusRequest::RegionDetail => self.execute_region_detail(region_id),
            StatusRequest::InvalidStatus => Err(Error::Other { reason: Reason::InvalidStatus }),
        };
        let response = match response {
            Err(e) => {
                return Err(e);
            },
            Ok(r) => r,
        };
        let mut resp = RaftCmdResponse {
            header: RaftResponseHeader { error: None, uuid: None, current_term: 0 },
            body: ResponseBody::Status(response),
        };
        // Bind peer current term here.
        if let Some(peer) = self.get_peer(region_id) {
            cmd_resp::bind_term(&mut resp, peer.term());
        }
        Ok(resp)
    }

    /// Answers who leads region `region_id`.
    fn execute_region_leader(&mut self, region_id: u64) -> (r: Result<StatusResponse, Error>)
        requires
            old(self).wf(),
        ensures
            final(self).cfg == old(self).cfg,
            final(self).store == old(self).store,
            final(self).region_peers == old(self).region_peers,
            final(self).region_ranges == old(self).region_ranges,
            final(self).pending_raft_groups == old(self).pending_raft_groups,
            ({
                let peers = old(self).peers();
                if !peers.contains_key(region_id) {
                    r matches Err(e) && e@ == (ErrorKind::RegionNotFound { region_id }) && final(self).peer_cache@ == old(self).peer_cache@
                } else {
                    let p = peers[region_id];
                    let lookup = spec_cache_lookup(
                        old(self).peer_cache@,
                        p.store.region.peers,
                        p.raft_group.leader_id,
                    );
                    r matches Ok(resp) && resp@ == (StatusResponseView::RegionLeader {
                        leader: lookup.0,
                    }) && final(self).peer_cache@ == lookup.1
                }
            }),
    {
        let i = match self.peer_index(region_id) {
            None => {
                return Err(Error::RegionNotFound { region_id });
            },
            Some(i) => i,
        };
        proof {
            lemma_peer_at(self.region_peers@, i as int);
        }
        let leader_id = self.region_peers[i].leader_id();
        let leader = self.region_peers[i].get_peer_from_cache(&mut self.peer_cache, leader_id);
        Ok(StatusResponse::RegionLeader { leader })
    }

    /// Answers what region `region_id` is and who leads it.
    fn execute_region_detail(&mut self, region_id: u64) -> (r: Result<StatusResponse, Error>)
        requires
            old(self).wf(),
        ensures
            final(self).cfg == old(self).cfg,
            final(self).store == old(self).store,
            final(self).region_peers == old(self).region_peers,
            final(self).region_ranges == old(self).region_ranges,
            final(self).pending_raft_groups == old(self).pending_raft_groups,
            ({
                let peers = old(self).peers();
                if !peers.contains_key(region_id) {
                    r matches Err(e) && e@ == (ErrorKind::RegionNotFound { region_id }) && final(self).peer_cache@ == old(self).peer_cache@
                } else if peers[region_id].store.region.peers.len() == 0 {
                    r matches Err(e) && e@ == (ErrorKind::RegionNotInitialized { region_id })
                        && final(self).peer_cache@ == old(self).peer_cache@
                } else {
                    let p = peers[region_id];
                    let lookup = spec_cache_lookup(
                        old(self).peer_cache@,
                        p.store.region.peers,
                        p.raft_group.leader_id,
                    );
                    r matches Ok(resp) && resp@ == (StatusResponseView::RegionDetail {
                        region: p.store.region,
                        leader: lookup.0,
                    }) && final(self).peer_cache@ == lookup.1
                }
            }),
    {
        let i = match self.peer_index(region_id) {
            None => {
                return Err(Error::RegionNotFound { region_id });
            },
            Some(i) => i,
        };
        proof {
            lemma_peer_at(self.region_peers@, i as int);
        }
        if !self.region_peers[i].is_initialized() {
            return Err(Error::RegionNotInitialized { region_id });
        }
        let region = self.region_peers[i].region().clone();
        let leader_id = self.region_peers[i].leader_id();
        let leader = self.region_peers[i].get_peer_from_cache(&mut self.peer_cache, leader_id);
        Ok(StatusResponse::RegionDetail { region, leader })
    }

    /// Decides what to do with a command from a client, whose callback is
    /// `cb`.
    pub fn propose_raft_command(&mut self, msg: &RaftCmdRequest, cb: C) -> (r: Result<
        ProposeOutcome<C>,
        Error,
    >)
        requires
            old(self).wf(),
        ensures
            final(self).wf(),
            final(self).cfg == old(self).cfg,
            final(self).store == old(self).store,
            final(self).region_ranges@ == old(self).region_ranges@,
            ({
                let out = spec_store_propose(
                    old(self).peers(),
                    old(self).peer_cache@,
                    old(self).pending_raft_groups@,
                    msg,
                    cb,
                );
                &&& propose_result_view(r) == out.0
                &&& final(self).peers() == out.1
                &&& final(self).peer_cache@ == out.2
                &&& final(self).pending_raft_groups@ == out.3
            }),
    {
        let mut resp = cmd_resp::new_response();
        let uuid = match util::get_uuid_from_req(msg) {
            None => {
                cmd_resp::bind_error(&mut resp, Error::Other { reason: Reason::MissingUuid });
                return Ok(ProposeOutcome::Respond { notification: Notification { cb, resp } });
            },
            Some(uuid) => {
                cmd_resp::bind_uuid(&mut resp, uuid);
                uuid
            },
        };
        let is_status = match &msg.body {
            CmdBody::Status(_) => true,
            _ => false,
        };
        if is_status {
            // For status commands, we handle it here directly.
            match self.execute_status_command(msg) {
                Err(e) => cmd_resp::bind_error(&mut resp, e),
                Ok(status_resp) => {
                    resp = status_resp;
                },
            }
            return Ok(ProposeOutcome::Respond { notification: Notification { cb, resp } });
        }
        let region_id = msg.header.region_id;
        let i = match self.peer_index(region_id) {
            None => {
                cmd_resp::bind_error(&mut resp, Error::RegionNotFound { region_id });
                return Ok(ProposeOutcome::Respond { notification: Notification { cb, resp } });
            },
            Some(i) => i,
        };
        proof {
            lemma_peer_at(self.region_peers@, i as int);
        }
        let term = self.region_peers[i].term();
        cmd_resp::bind_term(&mut resp, term);
        if !self.region_peers[i].is_leader() {
            let leader_id = self.region_peers[i].leader_id();
            let leader = self.region_peers[i].get_peer_from_cache(&mut self.peer_cache, leader_id);
            cmd_resp::bind_error(&mut resp, Error::NotLeader { region_id, leader });
            return Ok(ProposeOutcome::Respond { notification: Notification { cb, resp } });
        }
        let peer_id = msg.header.peer.id;
        if self.region_peers[i].peer_id() != peer_id {
            cmd_resp::bind_error(&mut resp, Error::Other { reason: Reason::MismatchPeerId });
            return Ok(ProposeOutcome::Respond { notification: Notification { cb, resp } });
        }
        // Notice:
        // Here means the peer is leader, it can still step down to follower later,
        // but it doesn't matter, if the peer is not leader, the proposing command
        // log entry can't be committed.

        let pending_cmd = PendingCmd { uuid, term, cb };
        let mut peer = self.take_peer(i);
        let r = peer.propose(&mut self.peer_cache, pending_cmd, msg, resp);
        self.put_peer(peer);
        proof {
            assert(self.peers() =~= old(self).peers().insert(region_id, peer@));
        }
        if r.is_ok() {
            self.add_pending(region_id);
        }
        r
    }

    /// Takes in the answer of the consensus layer of region `region_id` to
    /// a proposal. A command for a region that the store no longer has a
    /// peer of is answered with `RegionNotFound`.
    pub fn on_proposed(
        &mut self,
        region_id: u64,
        cmd: PendingCmd<C>,
        is_conf_change: bool,
        refused: Option<Error>,
        err_resp: RaftCmdResponse,
    ) -> (r: Option<Notification<C>>)
        requires
            old(self).wf(),
        ensures
            final(self).wf(),
            final(self).cfg == old(self).cfg,
            final(self).store == old(self).store,
            final(self).region_ranges@ == old(self).region_ranges@,
            final(self).peer_cache == old(self).peer_cache,
            final(self).pending_raft_groups == old(self).pending_raft_groups,
            ({
                let peers = old(self).peers();
                if !peers.contains_key(region_id) {
                    &&& r matches Some(n) && n@ == (NotificationView {
                        cb: cmd.cb,
                        resp: err_resp@.with_error(ErrorKind::RegionNotFound { region_id }),
                    })
                    &&& final(self).peers() == peers
                } else {
                    let out = spec_on_proposed(
                        peers[region_id],
                        cmd,
                        is_conf_change,
                        crate::raftstore::store::apply::error_view(refused),
                        err_resp@,
                    );
                    &&& match r {
                        Some(n) => out.0 == Some(n@),
                        None => out.0 is None,
                    }
                    &&& final(self).peers() == peers.insert(region_id, out.1)
                }
            }),
    {
        let i = match self.peer_index(region_id) {
            None => {
                let mut err_resp = err_resp;
                cmd_resp::bind_error(&mut err_resp, Error::RegionNotFound { region_id });
                return Some(Notification { cb: cmd.cb, resp: err_resp });
            },
            Some(i) => i,
        };
        proof {
            lemma_peer_at(self.region_peers@, i as int);
        }
        let mut peer = self.take_peer(i);
        let r = peer.on_proposed(cmd, is_conf_change, refused, err_resp);
        self.put_peer(peer);
        proof {
            assert(self.peers() =~= old(self).peers().insert(region_id, peer@));
        }
        r
    }
}

} // verus!
