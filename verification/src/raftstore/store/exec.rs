//! Executing a command against a region: what each kind of command does to
//! the region, to the batch of writes and to the peer's own state.

use crate::proto::metapb;
use crate::proto::metapb::{RegionEpoch, RegionView};
use crate::proto::raft_cmdpb::{
    AdminRequest, AdminResponse, AdminResponseView, CfName, CmdBody, RaftCmdRequest, Request,
    Response, ResponseBody, ResponseBodyView, ResponseView,
};
use crate::proto::raft_serverpb::{PeerState, RaftApplyState, RegionLocalState};
use crate::proto::raftpb::ConfChangeType;
use crate::raftstore::errors::{Error, ErrorKind, Reason};
use crate::raftstore::store::engine::{
    is_first_at_or_after, CfView, Snapshot, SnapshotView, WriteBatch, WriteOp, WriteOpView,
};
use crate::raftstore::store::keys;
use crate::raftstore::store::keys::{
    spec_data_key, spec_region_state_key, DATA_PREFIX,
};
use crate::raftstore::store::peer::{
    exec_result_view, spec_check_epoch, ExecResult, ExecResultView, Peer, PeerCache,
};
use crate::raftstore::store::peer_storage::{
    spec_compact, spec_initial_state_writes, write_initial_state,
};
use crate::raftstore::store::util;
use crate::raftstore::store::util::{has_peer_on_store, key_in_region, peer_position};
use crate::util::codec::order::{bytes_le, lex_le, lex_lt, to_vec};
use vstd::prelude::*;

verus! {

broadcast use vstd::std_specs::hash::group_hash_axioms;

/// The region after a change of membership, or why the change fails: a
/// peer is not added to a store that has one, nor removed from a store that
/// has none. A change that goes through raises `conf_ver` by one.
pub open spec fn spec_change_peer(
    region: RegionView,
    change_type: ConfChangeType,
    peer: metapb::Peer,
) -> Result<RegionView, Reason> {
    if region.region_epoch.conf_ver == u64::MAX {
        Err(Reason::EpochOverflow)
    } else {
        let epoch = RegionEpoch {
            conf_ver: (region.region_epoch.conf_ver + 1) as u64,
            ..region.region_epoch
        };
        let exists = has_peer_on_store(region.peers, peer.store_id);
        match change_type {
            ConfChangeType::AddNode => if exists {
                Err(Reason::DuplicatedPeer)
            } else {
                Ok(RegionView { region_epoch: epoch, peers: region.peers.push(peer), ..region })
            },
            ConfChangeType::RemoveNode => if !exists {
                Err(Reason::MissingPeer)
            } else {
                Ok(
                    RegionView {
                        region_epoch: epoch,
                        peers: region.peers.remove(peer_position(region.peers, peer.store_id)),
                        ..region
                    },
                )
            },
        }
    }
}

/// The write that persists `region` as a live region.
pub open spec fn region_state_write(region: RegionView) -> WriteOpView {
    WriteOpView::PutRegionState {
        key: spec_region_state_key(region.id),
        state: PeerState::Normal,
        region,
    }
}

/// The peers of a new region: those of the old one, on the same stores,
/// under the ids `ids`.
pub open spec fn renumbered(peers: Seq<metapb::Peer>, ids: Seq<u64>) -> Seq<metapb::Peer> {
    Seq::new(peers.len(), |i: int| metapb::Peer { id: ids[i], store_id: peers[i].store_id })
}

/// The cache after each of `peers` was put in under its id, first to last.
pub open spec fn cache_insert_all(
    cache: Map<u64, metapb::Peer>,
    peers: Seq<metapb::Peer>,
) -> Map<u64, metapb::Peer>
    decreases peers.len(),
{
    if peers.len() == 0 {
        cache
    } else {
        cache_insert_all(cache, peers.drop_last()).insert(peers.last().id, peers.last())
    }
}

/// The two halves of a region split at `split_key`, or why the split
/// fails. The left half keeps the region's id and peers and ends at the
/// split key; the right half starts there, has the new id, and has the
/// region's peers under the new peer ids. Both have `version` raised by one.
pub open spec fn spec_split(
    region: RegionView,
    split_key: Option<Seq<u8>>,
    new_region_id: u64,
    new_peer_ids: Seq<u64>,
) -> Result<(RegionView, RegionView), ErrorKind> {
    match split_key {
        None => Err(ErrorKind::Other { reason: Reason::MissingSplitKey }),
        Some(key) => if lex_le(key, region.start_key) {
            Err(ErrorKind::Other { reason: Reason::InvalidSplitKey })
        } else if !key_in_region(key, region) {
            Err(ErrorKind::KeyNotInRegion { key, region_id: region.id })
        } else if new_peer_ids.len() != region.peers.len() {
            Err(ErrorKind::Other { reason: Reason::InvalidPeerIdCount })
        } else if region.region_epoch.version == u64::MAX {
            Err(ErrorKind::Other { reason: Reason::EpochOverflow })
        } else {
            let epoch = RegionEpoch {
                version: (region.region_epoch.version + 1) as u64,
                ..region.region_epoch
            };
            Ok(
                (
                    RegionView { end_key: key, region_epoch: epoch, ..region },
                    RegionView {
                        id: new_region_id,
                        start_key: key,
                        region_epoch: epoch,
                        peers: renumbered(region.peers, new_peer_ids),
                        ..region
                    },
                ),
            )
        },
    }
}

/// The writes of a split: both halves, then the start of the right half's
/// log.
pub open spec fn split_writes(left: RegionView, right: RegionView) -> Seq<WriteOpView> {
    seq![region_state_write(left), region_state_write(right)] + spec_initial_state_writes(
        right.id,
    )
}

/// A split succeeds exactly when the split key lies strictly inside the
/// region and there is one new peer id for each peer.
pub proof fn lemma_split_fails(
    region: RegionView,
    split_key: Seq<u8>,
    new_region_id: u64,
    new_peer_ids: Seq<u64>,
)
    ensures
        lex_le(split_key, region.start_key) ==> spec_split(
            region,
            Some(split_key),
            new_region_id,
            new_peer_ids,
        ) is Err,
        !key_in_region(split_key, region) ==> spec_split(
            region,
            Some(split_key),
            new_region_id,
            new_peer_ids,
        ) is Err,
        new_peer_ids.len() != region.peers.len() ==> spec_split(
            region,
            Some(split_key),
            new_region_id,
            new_peer_ids,
        ) is Err,
        spec_split(region, Some(split_key), new_region_id, new_peer_ids) is Ok <==> (lex_lt(
            region.start_key,
            split_key,
        ) && key_in_region(split_key, region) && new_peer_ids.len() == region.peers.len()
            && region.region_epoch.version < u64::MAX),
{
    crate::util::codec::order::lemma_lex_le_iff_not_gt(split_key, region.start_key);
}

/// What a command did: its answer or its failure, and what it left behind
/// in the batch, the apply state, the cache and the peer.
pub struct CmdOutcome {
    pub result: Result<(ResponseBodyView, Option<ExecResultView>), ErrorKind>,
    pub ops: Seq<WriteOpView>,
    pub apply_state: RaftApplyState,
    pub cache: Map<u64, metapb::Peer>,
    pub hint: u64,
    pub pending_remove: bool,
}

/// What a peer is when it executes a command, as far as execution reads it.
pub struct ExecState {
    pub peer_id: u64,
    pub region: RegionView,
    pub apply_state: RaftApplyState,
    pub cache: Map<u64, metapb::Peer>,
    pub hint: u64,
    pub pending_remove: bool,
}

impl ExecState {
    /// The outcome of a command that ended with `result` and left nothing
    /// behind.
    pub open spec fn untouched(
        self,
        result: Result<(ResponseBodyView, Option<ExecResultView>), ErrorKind>,
    ) -> CmdOutcome {
        CmdOutcome {
            result,
            ops: Seq::empty(),
            apply_state: self.apply_state,
            cache: self.cache,
            hint: self.hint,
            pending_remove: self.pending_remove,
        }
    }

    /// The outcome of a command that failed with `e` before it did anything.
    pub open spec fn failed(self, e: ErrorKind) -> CmdOutcome {
        self.untouched(Err(e))
    }
}

/// What a change of membership does.
pub open spec fn spec_exec_change_peer(
    s: ExecState,
    change_type: ConfChangeType,
    peer: metapb::Peer,
) -> CmdOutcome {
    match spec_change_peer(s.region, change_type, peer) {
        Err(reason) => s.failed(ErrorKind::Other { reason }),
        Ok(region) => CmdOutcome {
            result: Ok(
                (
                    ResponseBodyView::Admin(AdminResponseView::ChangePeer { region }),
                    Some(ExecResultView::ChangePeer { change_type, peer, region }),
                ),
            ),
            ops: seq![region_state_write(region)],
            apply_state: s.apply_state,
            cache: match change_type {
                ConfChangeType::AddNode => s.cache.insert(peer.id, peer),
                ConfChangeType::RemoveNode => s.cache.remove(peer.id),
            },
            hint: s.hint,
            pending_remove: s.pending_remove || (change_type == ConfChangeType::RemoveNode
                && s.peer_id == peer.id),
        },
    }
}

/// What a split does.
pub open spec fn spec_exec_split(
    s: ExecState,
    split_key: Option<Seq<u8>>,
    new_region_id: u64,
    new_peer_ids: Seq<u64>,
) -> CmdOutcome {
    match spec_split(s.region, split_key, new_region_id, new_peer_ids) {
        Err(e) => s.failed(e),
        Ok((left, right)) => CmdOutcome {
            result: Ok(
                (
                    ResponseBodyView::Admin(AdminResponseView::Split { left, right }),
                    Some(ExecResultView::SplitRegion { left, right }),
                ),
            ),
            ops: split_writes(left, right),
            apply_state: s.apply_state,
            cache: cache_insert_all(s.cache, right.peers),
            hint: 0,
            pending_remove: s.pending_remove,
        },
    }
}

/// What a log compaction does: nothing where the log is already cut that
/// far; else it moves the compaction point.
pub open spec fn spec_exec_compact_log(
    s: ExecState,
    compact_index: u64,
    compact_term: Option<u64>,
) -> CmdOutcome {
    if compact_index <= s.apply_state.truncated_state.index + 1 {
        s.untouched(Ok((ResponseBodyView::Admin(AdminResponseView::CompactLog), None)))
    } else {
        match spec_compact(s.apply_state, compact_index, compact_term) {
            Err(reason) => s.failed(ErrorKind::Other { reason }),
            Ok(state) => CmdOutcome {
                apply_state: state,
                ..s.untouched(
                    Ok(
                        (
                            ResponseBodyView::Admin(AdminResponseView::CompactLog),
                            Some(ExecResultView::CompactLog { state: state.truncated_state }),
                        ),
                    ),
                )
            },
        }
    }
}

/// What an administration command does.
pub open spec fn spec_exec_admin(
    s: ExecState,
    admin: &AdminRequest,
    compact_term: Option<u64>,
) -> CmdOutcome {
    match *admin {
        AdminRequest::ChangePeer { change_type, peer } => spec_exec_change_peer(
            s,
            change_type,
            peer,
        ),
        AdminRequest::Split { split_key, new_region_id, new_peer_ids } => spec_exec_split(
            s,
            match split_key {
                Some(k) => Some(k@),
                None => None,
            },
            new_region_id,
            new_peer_ids@,
        ),
        AdminRequest::CompactLog { compact_index } => spec_exec_compact_log(
            s,
            compact_index,
            compact_term,
        ),
        AdminRequest::TransferLeader { .. } => s.failed(
            ErrorKind::Other { reason: Reason::TransferLeaderInLog },
        ),
        AdminRequest::InvalidAdmin => s.failed(
            ErrorKind::Other { reason: Reason::UnsupportedAdmin },
        ),
    }
}

/// The column family that a data command names, or the default one.
pub open spec fn cf_or_default(cf: Option<CfName>) -> CfName {
    match cf {
        Some(cf) => cf,
        None => CfName::Default,
    }
}

/// The size hint after a put of a stored key of `key_len` bytes with a
/// value of `value_len` bytes: it grows by both, up to the largest value.
pub open spec fn hint_after_put(hint: u64, key_len: nat, value_len: nat) -> u64 {
    if hint + key_len + value_len > u64::MAX {
        u64::MAX
    } else {
        (hint + key_len + value_len) as u64
    }
}

/// The size hint after a delete of a stored key of `key_len` bytes: it
/// shrinks by the key, down to zero.
pub open spec fn hint_after_delete(hint: u64, key_len: nat) -> u64 {
    if hint > key_len {
        (hint - key_len) as u64
    } else {
        0
    }
}

/// What a seek from the user key `key` finds: the first stored user key at
/// or after it, with its value.
pub open spec fn spec_seek(m: CfView, key: Seq<u8>) -> Option<(Seq<u8>, Seq<u8>)> {
    if exists|k: Seq<u8>| is_first_at_or_after(m, spec_data_key(key), k) {
        let k = choose|k: Seq<u8>| is_first_at_or_after(m, spec_data_key(key), k);
        if k.len() > 0 && k[0] == DATA_PREFIX {
            Some((k.skip(1), m[k]))
        } else {
            None
        }
    } else {
        None
    }
}

/// What one data command does: its answer, the write it adds to the batch,
/// if any, and the size hint after it. A key outside the region fails.
pub open spec fn spec_exec_request(
    region: RegionView,
    snap: SnapshotView,
    hint: u64,
    req: &Request,
) -> Result<(ResponseView, Seq<WriteOpView>, u64), ErrorKind> {
    match *req {
        Request::Invalid => Err(ErrorKind::Other { reason: Reason::InvalidCmdType }),
        Request::Snap => Ok((ResponseView::Snap { region }, Seq::empty(), hint)),
        Request::Get { cf, key } => if !key_in_region(key@, region) {
            Err(ErrorKind::KeyNotInRegion { key: key@, region_id: region.id })
        } else {
            let m = snap.cf(cf_or_default(cf));
            let k = spec_data_key(key@);
            Ok(
                (
                    ResponseView::Get {
                        value: if m.dom().contains(k) {
                            Some(m[k])
                        } else {
                            None
                        },
                    },
                    Seq::empty(),
                    hint,
                ),
            )
        },
        Request::Seek { key } => if !key_in_region(key@, region) {
            Err(ErrorKind::KeyNotInRegion { key: key@, region_id: region.id })
        } else {
            Ok(
                (
                    ResponseView::Seek { pair: spec_seek(snap.default_cf, key@) },
                    Seq::empty(),
                    hint,
                ),
            )
        },
        Request::Put { cf, key, value } => if !key_in_region(key@, region) {
            Err(ErrorKind::KeyNotInRegion { key: key@, region_id: region.id })
        } else {
            Ok(
                (
                    ResponseView::Put,
                    seq![
                        WriteOpView::Put {
                            cf: cf_or_default(cf),
                            key: spec_data_key(key@),
                            value: value@,
                        },
                    ],
                    hint_after_put(hint, spec_data_key(key@).len(), value@.len()),
                ),
            )
        },
        Request::Delete { cf, key } => if !key_in_region(key@, region) {
            Err(ErrorKind::KeyNotInRegion { key: key@, region_id: region.id })
        } else {
            Ok(
                (
                    ResponseView::Delete,
                    seq![WriteOpView::Delete { cf: cf_or_default(cf), key: spec_data_key(key@) }],
                    hint_after_delete(hint, spec_data_key(key@).len()),
                ),
            )
        },
    }
}

/// What a list of data commands did, up to the first that failed.
pub struct WriteOutcome {
    pub responses: Seq<ResponseView>,
    pub ops: Seq<WriteOpView>,
    pub hint: u64,
    pub error: Option<ErrorKind>,
}

/// What a list of data commands does, first to last. The first command
/// that fails ends the list; the writes of the commands before it stay in
/// the batch.
pub open spec fn spec_exec_requests(
    region: RegionView,
    snap: SnapshotView,
    hint: u64,
    reqs: Seq<Request>,
) -> WriteOutcome
    decreases reqs.len(),
{
    if reqs.len() == 0 {
        WriteOutcome { responses: Seq::empty(), ops: Seq::empty(), hint, error: None }
    } else {
        let prev = spec_exec_requests(region, snap, hint, reqs.drop_last());
        if prev.error is Some {
            prev
        } else {
            match spec_exec_request(region, snap, prev.hint, &reqs.last()) {
                Ok((resp, ops, hint)) => WriteOutcome {
                    responses: prev.responses.push(resp),
                    ops: prev.ops + ops,
                    hint,
                    error: None,
                },
                Err(e) => WriteOutcome { error: Some(e), ..prev },
            }
        }
    }
}

/// Once a command of the list has failed, the commands behind it change
/// nothing.
pub proof fn lemma_failure_ends_list(
    region: RegionView,
    snap: SnapshotView,
    hint: u64,
    reqs: Seq<Request>,
    n: int,
)
    requires
        0 <= n <= reqs.len(),
        spec_exec_requests(region, snap, hint, reqs.subrange(0, n)).error is Some,
    ensures
        spec_exec_requests(region, snap, hint, reqs) == spec_exec_requests(
            region,
            snap,
            hint,
            reqs.subrange(0, n),
        ),
    decreases reqs.len() - n,
{
    if n < reqs.len() {
        assert(reqs.subrange(0, n + 1).drop_last() =~= reqs.subrange(0, n));
        lemma_failure_ends_list(region, snap, hint, reqs, n + 1);
    } else {
        assert(reqs.subrange(0, n) =~= reqs);
    }
}

/// What the data commands of a request do.
pub open spec fn spec_exec_write(s: ExecState, snap: SnapshotView, reqs: Seq<Request>) -> CmdOutcome {
    let out = spec_exec_requests(s.region, snap, s.hint, reqs);
    CmdOutcome {
        result: match out.error {
            Some(e) => Err(e),
            None => Ok((ResponseBodyView::Responses(out.responses), None)),
        },
        ops: out.ops,
        apply_state: s.apply_state,
        cache: s.cache,
        hint: out.hint,
        pending_remove: s.pending_remove,
    }
}

/// What a command does when it is executed: it must pass the epoch check;
/// then an administration command or the data commands run.
pub open spec fn spec_exec_raft_cmd(
    s: ExecState,
    snap: SnapshotView,
    req: &RaftCmdRequest,
    compact_term: Option<u64>,
) -> CmdOutcome {
    match spec_check_epoch(s.region.region_epoch, req) {
        Err(e) => s.failed(e),
        Ok(()) => match req.body {
            CmdBody::Admin(admin) => spec_exec_admin(s, &admin, compact_term),
            CmdBody::Requests(reqs) => spec_exec_write(s, snap, reqs@),
            CmdBody::Status(_) => spec_exec_write(s, snap, Seq::empty()),
        },
    }
}

/// The view of what an execution returns.
pub open spec fn exec_return_view(r: Result<(ResponseBody, Option<ExecResult>), Error>) -> Result<
    (ResponseBodyView, Option<ExecResultView>),
    ErrorKind,
> {
    match r {
        Ok((body, exec_result)) => Ok((body@, exec_result_view(exec_result))),
        Err(e) => Err(e@),
    }
}

impl<C> Peer<C> {
    /// The peer as execution reads it, with the given apply state and cache.
    pub open spec fn exec_state(
        &self,
        apply_state: RaftApplyState,
        cache: Map<u64, metapb::Peer>,
    ) -> ExecState {
        ExecState {
            peer_id: self.peer.id,
            region: self.store.region@,
            apply_state,
            cache,
            hint: self.size_diff_hint,
            pending_remove: self.pending_remove,
        }
    }

    /// Whether `after` is `self` with the size hint and the removal flag of
    /// `out`, and nothing else changed.
    pub open spec fn changed_by(&self, after: &Peer<C>, out: CmdOutcome) -> bool {
        &&& after.peer == self.peer
        &&& after.region_id == self.region_id
        &&& after.raft_group == self.raft_group
        &&& after.store == self.store
        &&& after.pending_cmds == self.pending_cmds
        &&& after.size_diff_hint == out.hint
        &&& after.pending_remove == out.pending_remove
    }

    /// Executes a change of membership.
    pub fn exec_change_peer(
        &mut self,
        cache: &mut PeerCache,
        wb: &mut WriteBatch,
        change_type: ConfChangeType,
        peer: &metapb::Peer,
    ) -> (r: Result<(ResponseBody, Option<ExecResult>), Error>)
        ensures
            ({
                let s = old(self).exec_state(old(self).store.apply_state, old(cache)@);
                let out = spec_exec_change_peer(s, change_type, *peer);
                &&& exec_return_view(r) == out.result
                &&& final(wb)@ == old(wb)@ + out.ops
                &&& final(cache)@ == out.cache
                &&& old(self).changed_by(final(self), out)
            }),
    {
        let store_id = peer.store_id;
        let mut region = self.region().clone();
        let exists = util::find_peer(&region, store_id).is_some();
        if region.region_epoch.conf_ver == u64::MAX {
            return Err(Error::Other { reason: Reason::EpochOverflow });
        }
        let conf_ver = region.region_epoch.conf_ver + 1;
        region.region_epoch.conf_ver = conf_ver;
        match change_type {
            ConfChangeType::AddNode => {
                if exists {
                    return Err(Error::Other { reason: Reason::DuplicatedPeer });
                }
                // Add this peer to cache.
                cache.insert(peer.id, *peer);
                region.peers.push(*peer);
            },
            ConfChangeType::RemoveNode => {
                if !exists {
                    return Err(Error::Other { reason: Reason::MissingPeer });
                }
                if self.peer_id() == peer.id {
                    // Remove ourself, we will destroy all region data later.
                    // So we need not to apply following logs.
                    self.pending_remove = true;
                }
                // Remove this peer from cache.
                cache.remove(&peer.id);
                let _ = util::remove_peer(&mut region, store_id);
            },
        }
        let state = RegionLocalState { state: PeerState::Normal, region: region.clone() };
        wb.push(WriteOp::PutRegionState { key: keys::region_state_key(region.id), state });
        let resp = AdminResponse::ChangePeer { region: region.clone() };
        proof {
            assert(wb@ =~= old(wb)@ + seq![region_state_write(region@)]);
        }
        Ok(
            (
                ResponseBody::Admin(resp),
                Some(ExecResult::ChangePeer { change_type, peer: *peer, region }),
            ),
        )
    }

    /// Executes a split.
    pub fn exec_split(
        &mut self,
        cache: &mut PeerCache,
        wb: &mut WriteBatch,
        split_key: &Option<Vec<u8>>,
        new_region_id: u64,
        new_peer_ids: &Vec<u64>,
    ) -> (r: Result<(ResponseBody, Option<ExecResult>), Error>)
        ensures
            ({
                let s = old(self).exec_state(old(self).store.apply_state, old(cache)@);
                let out = spec_exec_split(
                    s,
                    match *split_key {
                        Some(k) => Some(k@),
                        None => None,
                    },
                    new_region_id,
                    new_peer_ids@,
                );
                &&& exec_return_view(r) == out.result
                &&& final(wb)@ == old(wb)@ + out.ops
                &&& final(cache)@ == out.cache
                &&& old(self).changed_by(final(self), out)
            }),
    {
        let split_key = match split_key {
            None => {
                return Err(Error::Other { reason: Reason::MissingSplitKey });
            },
            Some(k) => k.as_slice(),
        };
        let mut region = self.region().clone();
        if bytes_le(split_key, region.start_key.as_slice()) {
            return Err(Error::Other { reason: Reason::InvalidSplitKey });
        }
        match util::check_key_in_region(split_key, &region) {
            Err(e) => {
                return Err(e);
            },
            Ok(()) => {},
        }
        // After split, the origin region key range is [start_key, split_key),
        // the new split region is [split_key, end).
        let mut new_region = region.clone();
        region.end_key = to_vec(split_key);
        new_region.start_key = to_vec(split_key);
        new_region.id = new_region_id;

        // Update new region peer ids.
        if new_peer_ids.len() != new_region.peers.len() {
            return Err(Error::Other { reason: Reason::InvalidPeerIdCount });
        }
        if region.region_epoch.version == u64::MAX {
            return Err(Error::Other { reason: Reason::EpochOverflow });
        }
        let ghost old_peers = new_region.peers@;
        let ghost target = renumbered(old_peers, new_peer_ids@);
        let n = new_region.peers.len();
        let mut peers: Vec<metapb::Peer> = Vec::new();
        let mut index: usize = 0;
        while index < n
            invariant
                index <= n,
                n == old_peers.len(),
                n == new_peer_ids@.len(),
                new_region.peers@ == old_peers,
                target == renumbered(old_peers, new_peer_ids@),
                peers@ == target.subrange(0, index as int),
                cache@ == cache_insert_all(old(cache)@, peers@),
            decreases n - index,
        {
            let peer = metapb::Peer {
                id: new_peer_ids[index],
                store_id: new_region.peers[index].store_id,
            };
            // Add this peer to cache.
            cache.insert(peer.id, peer);
            let ghost before = peers@;
            peers.push(peer);
            index += 1;
            proof {
                assert(peers@ =~= target.subrange(0, index as int));
                assert(peers@.drop_last() =~= before);
            }
        }
        proof {
            assert(peers@ =~= target);
        }
        new_region.peers = peers;

        // update region version
        let region_ver = region.region_epoch.version + 1;
        region.region_epoch.version = region_ver;
        new_region.region_epoch.version = region_ver;
        let state = RegionLocalState { state: PeerState::Normal, region: region.clone() };
        wb.push(WriteOp::PutRegionState { key: keys::region_state_key(region.id), state });
        let new_state = RegionLocalState { state: PeerState::Normal, region: new_region.clone() };
        wb.push(
            WriteOp::PutRegionState { key: keys::region_state_key(new_region.id), state: new_state },
        );
        write_initial_state(wb, new_region.id);

        let resp = AdminResponse::Split { left: region.clone(), right: new_region.clone() };
        self.size_diff_hint = 0;
        proof {
            assert(wb@ =~= old(wb)@ + split_writes(region@, new_region@));
        }
        Ok((ResponseBody::Admin(resp), Some(ExecResult::SplitRegion { left: region, right: new_region })))
    }

    /// Executes a log compaction on `apply_state`, the apply state that
    /// the entry under way will leave.
    pub fn exec_compact_log(
        &self,
        apply_state: &mut RaftApplyState,
        compact_index: u64,
        compact_term: Option<u64>,
    ) -> (r: Result<(ResponseBody, Option<ExecResult>), Error>)
        requires
            old(apply_state).truncated_state.index < u64::MAX,
        ensures
            ({
                let s = self.exec_state(*old(apply_state), Map::empty());
                let out = spec_exec_compact_log(s, compact_index, compact_term);
                &&& exec_return_view(r) == out.result
                &&& *final(apply_state) == out.apply_state
            }),
    {
        let resp = AdminResponse::CompactLog;
        let first_index = apply_state.truncated_state.index + 1;
        if compact_index <= first_index {
            return Ok((ResponseBody::Admin(resp), None));
        }
        match self.store.compact(apply_state, compact_index, compact_term) {
            Err(e) => Err(e),
            Ok(()) => Ok(
                (
                    ResponseBody::Admin(resp),
                    Some(ExecResult::CompactLog { state: apply_state.truncated_state }),
                ),
            ),
        }
    }
}

/// The view of what a data command returns.
pub open spec fn response_result_view(r: Result<Response, Error>) -> Result<ResponseView, ErrorKind> {
    match r {
        Ok(resp) => Ok(resp@),
        Err(e) => Err(e@),
    }
}

/// The column family that a data command names, or the default one.
fn pick_cf(cf: &Option<CfName>) -> (r: CfName)
    ensures
        r == cf_or_default(*cf),
{
    match cf {
        Some(cf) => *cf,
        None => CfName::Default,
    }
}

impl<C> Peer<C> {
    /// Checks that the user key `key` lies in the region.
    pub fn check_data_key(&self, key: &[u8]) -> (r: Result<(), Error>)
        ensures
            r is Ok <==> key_in_region(key@, self.store.region@),
            r matches Err(e) ==> e@ == (ErrorKind::KeyNotInRegion {
                key: key@,
                region_id: self.store.region.id,
            }),
    {
        // region key range has no data prefix, so we must use origin key to check.
        util::check_key_in_region(key, self.store.get_region())
    }

    /// Answers a get from the snapshot.
    pub fn do_get(&self, snap: &Snapshot, cf: &Option<CfName>, key: &Vec<u8>) -> (r: Result<
        Response,
        Error,
    >)
        requires
            snap.wf(),
        ensures
            ({
                let req = Request::Get { cf: *cf, key: *key };
                match spec_exec_request(self.store.region@, snap@, self.size_diff_hint, &req) {
                    Ok((resp, _, _)) => response_result_view(r) == Ok::<ResponseView, ErrorKind>(
                        resp,
                    ),
                    Err(e) => response_result_view(r) == Err::<ResponseView, ErrorKind>(e),
                }
            }),
    {
        match self.check_data_key(key.as_slice()) {
            Err(e) => {
                return Err(e);
            },
            Ok(()) => {},
        }
        let data_key = keys::data_key(key.as_slice());
        let value = snap.get_value_cf(pick_cf(cf), data_key.as_slice());
        Ok(Response::Get { value })
    }

    /// Answers a seek from the snapshot.
    pub fn do_seek(&self, snap: &Snapshot, key: &Vec<u8>) -> (r: Result<Response, Error>)
        requires
            snap.wf(),
        ensures
            ({
                let req = Request::Seek { key: *key };
                match spec_exec_request(self.store.region@, snap@, self.size_diff_hint, &req) {
                    Ok((resp, _, _)) => response_result_view(r) == Ok::<ResponseView, ErrorKind>(
                        resp,
                    ),
                    Err(e) => response_result_view(r) == Err::<ResponseView, ErrorKind>(e),
                }
            }),
    {
        match self.check_data_key(key.as_slice()) {
            Err(e) => {
                return Err(e);
            },
            Ok(()) => {},
        }
        let data_key = keys::data_key(key.as_slice());
        let found = snap.seek(data_key.as_slice());
        let ghost m = snap@.default_cf;
        let ghost bound = spec_data_key(key@);
        match found {
            None => {
                proof {
                    if exists|k: Seq<u8>| is_first_at_or_after(m, bound, k) {
                        let k = choose|k: Seq<u8>| is_first_at_or_after(m, bound, k);
                        crate::util::codec::order::lemma_lex_le_iff_not_gt(bound, k);
                    }
                }
                Ok(Response::Seek { pair: None })
            },
            Some((k, v)) => {
                proof {
                    let chosen = choose|k: Seq<u8>| is_first_at_or_after(m, bound, k);
                    assert(is_first_at_or_after(m, bound, chosen));
                    // the first key at or after a bound is unique
                    assert(lex_le(k@, chosen) && lex_le(chosen, k@));
                    crate::util::codec::order::lemma_lex_trichotomy(k@, chosen);
                }
                match keys::origin_key(k.as_slice()) {
                    None => Ok(Response::Seek { pair: None }),
                    Some(origin) => {
                        proof {
                            assert(k@.skip(1) =~= origin@);
                        }
                        Ok(Response::Seek { pair: Some((origin, v)) })
                    },
                }
            },
        }
    }

    /// Adds a put to the batch.
    pub fn do_put(
        &mut self,
        wb: &mut WriteBatch,
        cf: &Option<CfName>,
        key: &Vec<u8>,
        value: &Vec<u8>,
    ) -> (r: Result<Response, Error>)
        ensures
            ({
                let req = Request::Put { cf: *cf, key: *key, value: *value };
                match spec_exec_request(
                    old(self).store.region@,
                    SnapshotView::empty(),
                    old(self).size_diff_hint,
                    &req,
                ) {
                    Ok((resp, ops, hint)) => response_result_view(r) == Ok::<
                        ResponseView,
                        ErrorKind,
                    >(resp) && final(wb)@ == old(wb)@ + ops && *final(self) == (Peer {
                        size_diff_hint: hint,
                        ..*old(self)
                    }),
                    Err(e) => response_result_view(r) == Err::<ResponseView, ErrorKind>(e)
                        && final(wb)@ == old(wb)@ && *final(self) == *old(self),
                }
            }),
    {
        match self.check_data_key(key.as_slice()) {
            Err(e) => {
                return Err(e);
            },
            Ok(()) => {},
        }
        let data_key = keys::data_key(key.as_slice());
        let key_len = data_key.len() as u64;
        let value_len = value.len() as u64;
        let mut hint = self.size_diff_hint;
        hint = if hint > u64::MAX - key_len {
            u64::MAX
        } else {
            hint + key_len
        };
        hint = if hint > u64::MAX - value_len {
            u64::MAX
        } else {
            hint + value_len
        };
        self.size_diff_hint = hint;
        wb.push(WriteOp::Put { cf: pick_cf(cf), key: data_key, value: to_vec(value.as_slice()) });
        proof {
            assert(wb@ =~= old(wb)@ + seq![
                WriteOpView::Put {
                    cf: cf_or_default(*cf),
                    key: spec_data_key(key@),
                    value: value@,
                },
            ]);
        }
        Ok(Response::Put)
    }

    /// Adds a delete to the batch.
    pub fn do_delete(&mut self, wb: &mut WriteBatch, cf: &Option<CfName>, key: &Vec<u8>) -> (r:
        Result<Response, Error>)
        ensures
            ({
                let req = Request::Delete { cf: *cf, key: *key };
                match spec_exec_request(
                    old(self).store.region@,
                    SnapshotView::empty(),
                    old(self).size_diff_hint,
                    &req,
                ) {
                    Ok((resp, ops, hint)) => response_result_view(r) == Ok::<
                        ResponseView,
                        ErrorKind,
                    >(resp) && final(wb)@ == old(wb)@ + ops && *final(self) == (Peer {
                        size_diff_hint: hint,
                        ..*old(self)
                    }),
                    Err(e) => response_result_view(r) == Err::<ResponseView, ErrorKind>(e)
                        && final(wb)@ == old(wb)@ && *final(self) == *old(self),
                }
            }),
    {
        match self.check_data_key(key.as_slice()) {
            Err(e) => {
                return Err(e);
            },
            Ok(()) => {},
        }
        let data_key = keys::data_key(key.as_slice());
        // since size_diff_hint is not accurate, so we just skip calculate the value size.
        let klen = data_key.len() as u64;
        if self.size_diff_hint > klen {
            self.size_diff_hint -= klen;
        } else {
            self.size_diff_hint = 0;
        }
        wb.push(WriteOp::Delete { cf: pick_cf(cf), key: data_key });
        proof {
            assert(wb@ =~= old(wb)@ + seq![
                WriteOpView::Delete { cf: cf_or_default(*cf), key: spec_data_key(key@) },
            ]);
        }
        Ok(Response::Delete)
    }

    /// Answers with the region as it stands.
    pub fn do_snap(&self) -> (r: Result<Response, Error>)
        ensures
            response_result_view(r) == Ok::<ResponseView, ErrorKind>(
                ResponseView::Snap { region: self.store.region@ },
            ),
    {
        Ok(Response::Snap { region: self.store.get_region().clone() })
    }

    /// Executes one data command.
    pub fn exec_request(&mut self, snap: &Snapshot, wb: &mut WriteBatch, req: &Request) -> (r:
        Result<Response, Error>)
        requires
            snap.wf(),
        ensures
            match spec_exec_request(
                old(self).store.region@,
                snap@,
                old(self).size_diff_hint,
                req,
            ) {
                Ok((resp, ops, hint)) => response_result_view(r) == Ok::<ResponseView, ErrorKind>(
                    resp,
                ) && final(wb)@ == old(wb)@ + ops && *final(self) == (Peer {
                    size_diff_hint: hint,
                    ..*old(self)
                }),
                Err(e) => response_result_view(r) == Err::<ResponseView, ErrorKind>(e)
                    && final(wb)@ == old(wb)@ && *final(self) == *old(self),
            },
    {
        proof {
            assert(wb@ + Seq::<WriteOpView>::empty() =~= wb@);
        }
        match req {
            Request::Get { cf, key } => self.do_get(snap, cf, key),
            Request::Seek { key } => self.do_seek(snap, key),
            Request::Put { cf, key, value } => self.do_put(wb, cf, key, value),
            Request::Delete { cf, key } => self.do_delete(wb, cf, key),
            Request::Snap => self.do_snap(),
            Request::Invalid => Err(Error::Other { reason: Reason::InvalidCmdType }),
        }
    }

    /// Executes the data commands of a request, first to last, up to the
    /// first that fails.
    pub fn exec_write_cmd(
        &mut self,
        snap: &Snapshot,
        wb: &mut WriteBatch,
        requests: &Vec<Request>,
    ) -> (r: Result<(ResponseBody, Option<ExecResult>), Error>)
        requires
            snap.wf(),
        ensures
            ({
                let s = old(self).exec_state(old(self).store.apply_state, Map::empty());
                let out = spec_exec_write(s, snap@, requests@);
                &&& exec_return_view(r) == out.result
                &&& final(wb)@ == old(wb)@ + out.ops
                &&& old(self).changed_by(final(self), out)
            }),
    {
        let mut responses: Vec<Response> = Vec::new();
        let ghost region = self.store.region@;
        let ghost hint0 = self.size_diff_hint;
        let mut i: usize = 0;
        proof {
            assert(wb@ + Seq::<WriteOpView>::empty() =~= wb@);
            assert(Seq::new(responses@.len(), |k: int| responses@[k]@) =~= Seq::<
                ResponseView,
            >::empty());
        }
        while i < requests.len()
            invariant
                snap.wf(),
                i <= requests@.len(),
                region == old(self).store.region@,
                hint0 == old(self).size_diff_hint,
                ({
                    let out = spec_exec_requests(region, snap@, hint0, requests@.subrange(0, i as int));
                    &&& out.error is None
                    &&& out.responses == Seq::new(responses@.len(), |k: int| responses@[k]@)
                    &&& wb@ == old(wb)@ + out.ops
                    &&& *self == (Peer { size_diff_hint: out.hint, ..*old(self) })
                }),
            decreases requests@.len() - i,
        {
            let ghost prev = spec_exec_requests(region, snap@, hint0, requests@.subrange(0, i as int));
            let ghost wb_before = wb@;
            proof {
                assert(requests@.subrange(0, i + 1).drop_last() =~= requests@.subrange(0, i as int));
                assert(requests@.subrange(0, i + 1).last() == requests@[i as int]);
            }
            match self.exec_request(snap, wb, &requests[i]) {
                Err(e) => {
                    proof {
                        lemma_failure_ends_list(region, snap@, hint0, requests@, i + 1);
                    }
                    return Err(e);
                },
                Ok(resp) => {
                    let ghost before = Seq::new(responses@.len(), |k: int| responses@[k]@);
                    responses.push(resp);
                    proof {
                        let out = spec_exec_requests(
                            region,
                            snap@,
                            hint0,
                            requests@.subrange(0, i + 1),
                        );
                        assert(Seq::new(responses@.len(), |k: int| responses@[k]@) =~= before.push(
                            resp@,
                        ));
                        let step = spec_exec_request(region, snap@, prev.hint, &requests@[i as int]);
                        assert(wb@ =~= old(wb)@ + (prev.ops + step->Ok_0.1));
                    }
                },
            }
            i += 1;
        }
        proof {
            assert(requests@.subrange(0, i as int) =~= requests@);
        }
        Ok((ResponseBody::Responses(responses), None))
    }

    /// Executes an administration command.
    pub fn exec_admin_cmd(
        &mut self,
        cache: &mut PeerCache,
        wb: &mut WriteBatch,
        apply_state: &mut RaftApplyState,
        request: &AdminRequest,
        compact_term: Option<u64>,
    ) -> (r: Result<(ResponseBody, Option<ExecResult>), Error>)
        requires
            old(apply_state).truncated_state.index < u64::MAX,
        ensures
            ({
                let s = old(self).exec_state(*old(apply_state), old(cache)@);
                let out = spec_exec_admin(s, request, compact_term);
                &&& exec_return_view(r) == out.result
                &&& final(wb)@ == old(wb)@ + out.ops
                &&& final(cache)@ == out.cache
                &&& *final(apply_state) == out.apply_state
                &&& old(self).changed_by(final(self), out)
            }),
    {
        proof {
            assert(wb@ + Seq::<WriteOpView>::empty() =~= wb@);
        }
        match request {
            AdminRequest::ChangePeer { change_type, peer } => self.exec_change_peer(
                cache,
                wb,
                *change_type,
                peer,
            ),
            AdminRequest::Split { split_key, new_region_id, new_peer_ids } => self.exec_split(
                cache,
                wb,
                split_key,
                *new_region_id,
                new_peer_ids,
            ),
            AdminRequest::CompactLog { compact_index } => self.exec_compact_log(
                apply_state,
                *compact_index,
                compact_term,
            ),
            AdminRequest::TransferLeader { .. } => Err(
                Error::Other { reason: Reason::TransferLeaderInLog },
            ),
            AdminRequest::InvalidAdmin => Err(Error::Other { reason: Reason::UnsupportedAdmin }),
        }
    }

    /// Executes a command: the epoch check, then the command itself.
    pub fn exec_raft_cmd(
        &mut self,
        cache: &mut PeerCache,
        snap: &Snapshot,
        wb: &mut WriteBatch,
        apply_state: &mut RaftApplyState,
        req: &RaftCmdRequest,
        compact_term: Option<u64>,
    ) -> (r: Result<(ResponseBody, Option<ExecResult>), Error>)
        requires
            snap.wf(),
            old(apply_state).truncated_state.index < u64::MAX,
        ensures
            ({
                let s = old(self).exec_state(*old(apply_state), old(cache)@);
                let out = spec_exec_raft_cmd(s, snap@, req, compact_term);
                &&& exec_return_view(r) == out.result
                &&& final(wb)@ == old(wb)@ + out.ops
                &&& final(cache)@ == out.cache
                &&& *final(apply_state) == out.apply_state
                &&& old(self).changed_by(final(self), out)
            }),
    {
        proof {
            assert(wb@ + Seq::<WriteOpView>::empty() =~= wb@);
        }
        match self.check_epoch(req) {
            Err(e) => {
                return Err(e);
            },
            Ok(()) => {},
        }
        match &req.body {
            CmdBody::Admin(admin) => self.exec_admin_cmd(cache, wb, apply_state, admin, compact_term),
            CmdBody::Requests(requests) => self.exec_write_cmd(snap, wb, requests),
            CmdBody::Status(_) => {
                let none: Vec<Request> = Vec::new();
                self.exec_write_cmd(snap, wb, &none)
            },
        }
    }
}

} // verus!
