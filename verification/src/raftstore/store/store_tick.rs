//! What the store does when a timer ticks or a background worker reports
//! back.

use crate::proto::metapb;
use crate::proto::metapb::RegionEpoch;
use crate::proto::raft_cmdpb::{AdminRequest, CmdBody, RaftCmdRequest, RaftRequestHeader};
use crate::proto::raft_serverpb::{PeerState, RaftApplyState, RaftLocalState, RegionLocalState};
use crate::proto::raftpb::{Progress, SnapshotStatus};
use crate::raftstore::errors::{Error, ErrorKind, Reason};
use crate::raftstore::store::config::Config;
use crate::raftstore::store::keys;
use crate::raftstore::store::keys::spec_region_state_key;
use crate::raftstore::store::peer::{Peer, PeerView, StateRole, StorageView};
use crate::raftstore::store::peer_storage::{indexes_ordered, PeerStorage, SnapState};
use crate::raftstore::store::ready::RaftReport;
use crate::raftstore::store::region_ranges::{
    enc_end, lemma_insert_region, overlaps_other, valid_range,
};
use crate::raftstore::store::store::{
    lemma_peer_at, lemma_put_peer, lemma_regions_of, lemma_update_peer, peer_map, pending_insert,
    regions_of, Store,
};
use crate::raftstore::store::store_ready::range_is_valid;
use crate::raftstore::store::task::{push_task, tasks_view, StoreStats, Task, TaskView};
use crate::raftstore::store::util;
use crate::raftstore::store::util::spec_find_peer;
use crate::util::codec::order::to_vec;
use vstd::prelude::*;

verus! {

broadcast use vstd::std_specs::hash::group_hash_axioms;

/// The views of a list of peers.
pub open spec fn peer_views<C>(peers: Seq<Peer<C>>) -> Seq<PeerView<C>> {
    Seq::new(peers.len(), |i: int| peers[i]@)
}

/// The regions whose consensus layer a base tick ticks: those of the peers
/// that are not applying a snapshot, in the order of the peers.
pub open spec fn base_tick_regions<C>(views: Seq<PeerView<C>>) -> Seq<u64>
    decreases views.len(),
{
    if views.len() == 0 {
        Seq::empty()
    } else {
        let rest = base_tick_regions(views.drop_last());
        if views.last().store.snap_state != SnapState::Applying {
            rest.push(views.last().region_id)
        } else {
            rest
        }
    }
}

/// One tick task for each of `ids`.
pub open spec fn tick_tasks(ids: Seq<u64>) -> Seq<TaskView> {
    Seq::new(ids.len(), |i: int| TaskView::RaftTick { region_id: ids[i] })
}

/// The pending regions with each of `ids` among them.
pub open spec fn pending_insert_all(pending: Seq<u64>, ids: Seq<u64>) -> Seq<u64>
    decreases ids.len(),
{
    if ids.len() == 0 {
        pending
    } else {
        pending_insert(pending_insert_all(pending, ids.drop_last()), ids.last())
    }
}

/// The smallest position up to which the log of every peer is known to
/// match the leader's; none if the leader has no record of any peer.
pub open spec fn min_matched(progress: Seq<Progress>) -> Option<u64>
    decreases progress.len(),
{
    if progress.len() == 0 {
        None
    } else {
        match min_matched(progress.drop_last()) {
            None => Some(progress.last().matched),
            Some(m) => Some(
                if progress.last().matched < m {
                    progress.last().matched
                } else {
                    m
                },
            ),
        }
    }
}

/// The position up to which to compact the log, if at all: up to what was
/// applied, once the log holds `limit` applied entries or more; else up to
/// what every follower has, if that is more than `threshold` past the
/// first entry of the log.
pub open spec fn spec_compact_idx(
    applied_idx: u64,
    first_idx: u64,
    replicated_idx: u64,
    limit: u64,
    threshold: u64,
) -> Option<u64> {
    if applied_idx > first_idx && applied_idx - first_idx >= limit {
        Some(applied_idx)
    } else if replicated_idx < first_idx || replicated_idx - first_idx <= threshold {
        None
    } else {
        Some(replicated_idx)
    }
}

/// The position up to which the peer should have its log compacted, if at
/// all. Only a leader compacts.
pub open spec fn gc_decision<C>(p: PeerView<C>, cfg: Config) -> Option<u64> {
    if p.raft_group.role != StateRole::Leader {
        None
    } else {
        match min_matched(p.raft_group.progress) {
            None => None,
            Some(replicated_idx) => spec_compact_idx(
                p.store.apply_state.applied_index,
                (p.store.apply_state.truncated_state.index + 1) as u64,
                replicated_idx,
                cfg.raft_log_gc_limit,
                cfg.raft_log_gc_threshold,
            ),
        }
    }
}

/// The compactions to propose, one for each peer that should have its log
/// compacted, in the order of the peers: region, peer, position.
pub open spec fn gc_requests<C>(views: Seq<PeerView<C>>, cfg: Config) -> Seq<
    (u64, metapb::Peer, u64),
>
    decreases views.len(),
{
    if views.len() == 0 {
        Seq::empty()
    } else {
        let rest = gc_requests(views.drop_last(), cfg);
        match gc_decision(views.last(), cfg) {
            Some(idx) => rest.push((views.last().region_id, views.last().peer, idx)),
            None => rest,
        }
    }
}

/// Whether `req` asks peer `peer` of region `region_id` to compact its log
/// up to `compact_index`, under a uuid of its own.
pub open spec fn is_compact_log_request(
    req: &RaftCmdRequest,
    region_id: u64,
    peer: metapb::Peer,
    compact_index: u64,
) -> bool {
    &&& req.header.region_id == region_id
    &&& req.header.peer == peer
    &&& req.header.region_epoch is None
    &&& req.spec_uuid() is Some
    &&& req.body == CmdBody::Admin(AdminRequest::CompactLog { compact_index })
}

/// A request to compact the log of region `region_id` up to
/// `compact_index`, under a fresh uuid.
pub fn new_compact_log_request(region_id: u64, peer: metapb::Peer, compact_index: u64) -> (request:
    RaftCmdRequest)
    ensures
        is_compact_log_request(&request, region_id, peer, compact_index),
{
    RaftCmdRequest {
        header: RaftRequestHeader {
            region_id,
            peer,
            region_epoch: None,
            uuid: util::fresh_uuid(),
        },
        body: CmdBody::Admin(AdminRequest::CompactLog { compact_index }),
    }
}

/// Whether the peer's region is due for a scan for a split key: the peer
/// leads, and the region has grown enough since the last scan.
pub open spec fn needs_split_check<C>(p: PeerView<C>, cfg: Config) -> bool {
    p.raft_group.role == StateRole::Leader && p.size_diff_hint >= cfg.region_check_size_diff
}

/// The scan of the region of `p`.
pub open spec fn split_check_task<C>(p: PeerView<C>) -> TaskView {
    TaskView::SplitCheck {
        region_id: p.region_id,
        epoch: p.store.region.region_epoch,
        start_key: p.store.region.start_key,
        end_key: p.store.region.end_key,
    }
}

/// The scans to start, in the order of the peers.
pub open spec fn split_check_tasks<C>(views: Seq<PeerView<C>>, cfg: Config) -> Seq<TaskView>
    decreases views.len(),
{
    if views.len() == 0 {
        Seq::empty()
    } else {
        let rest = split_check_tasks(views.drop_last(), cfg);
        if needs_split_check(views.last(), cfg) {
            rest.push(split_check_task(views.last()))
        } else {
            rest
        }
    }
}

/// The peer after a split check tick: the growth of a region that is
/// scanned counts from zero again.
pub open spec fn after_split_check<C>(p: PeerView<C>, cfg: Config) -> PeerView<C> {
    if needs_split_check(p, cfg) {
        PeerView { size_diff_hint: 0, ..p }
    } else {
        p
    }
}

/// The heartbeats of the regions that this store leads, in the order of
/// the peers.
pub open spec fn heartbeat_tasks<C>(views: Seq<PeerView<C>>) -> Seq<TaskView>
    decreases views.len(),
{
    if views.len() == 0 {
        Seq::empty()
    } else {
        let rest = heartbeat_tasks(views.drop_last());
        if views.last().raft_group.role == StateRole::Leader {
            rest.push(
                TaskView::PdHeartbeat {
                    region: views.last().store.region,
                    peer: views.last().peer,
                },
            )
        } else {
            rest
        }
    }
}

/// A count as a 32-bit number, or the largest one if it does not fit.
pub open spec fn clamp_u32(n: nat) -> u32 {
    if n > u32::MAX {
        u32::MAX
    } else {
        n as u32
    }
}

/// What a store reports of itself: its capacity is the disk's, capped by
/// the configured one; what is available is the capacity less what the
/// engine uses, capped by what the disk has free.
pub open spec fn spec_store_stats(
    store_id: u64,
    cfg_capacity: u64,
    disk_capacity: u64,
    disk_available: u64,
    used_size: u64,
    region_count: nat,
    sending_count: nat,
    receiving_count: nat,
) -> StoreStats {
    let capacity = if disk_capacity < cfg_capacity {
        disk_capacity
    } else {
        cfg_capacity
    };
    let available = if capacity > used_size {
        (capacity - used_size) as u64
    } else {
        0
    };
    StoreStats {
        store_id,
        capacity,
        available: if available > disk_available {
            disk_available
        } else {
            available
        },
        region_count: clamp_u32(region_count),
        sending_snap_count: clamp_u32(sending_count),
        receiving_snap_count: clamp_u32(receiving_count),
    }
}

/// What names a snapshot file.
#[derive(Clone, Copy, Debug, PartialEq, Eq, Structural)]
pub struct SnapKey {
    pub region_id: u64,
    pub term: u64,
    pub idx: u64,
}

/// A snapshot file as the snapshot manager lists it.
#[derive(Clone, Copy, Debug, PartialEq, Eq, Structural)]
pub struct SnapFile {
    pub key: SnapKey,
    /// Whether the snapshot was generated here to be sent, and not received.
    pub is_sending: bool,
    /// Whether a transfer in progress pins the file.
    pub registered: bool,
    /// How many seconds ago the file was last modified, if that is known.
    pub elapsed_secs: Option<u64>,
}

/// Whether a snapshot file is garbage.
///
/// A pinned file never is. A sent snapshot is garbage once the log is
/// compacted past it, or once it is older than `timeout` seconds. A
/// received snapshot is garbage once it is applied. A file of a region of
/// which the store has no peer counts as compacted past and applied.
pub open spec fn spec_snap_is_garbage<C>(
    peers: Map<u64, PeerView<C>>,
    timeout: u64,
    f: SnapFile,
) -> bool {
    let (compacted_idx, compacted_term, is_applying_snap) = if peers.contains_key(
        f.key.region_id,
    ) {
        let s = peers[f.key.region_id].store;
        (
            s.apply_state.truncated_state.index,
            s.apply_state.truncated_state.term,
            s.snap_state == SnapState::Applying,
        )
    } else {
        // region is deleted
        (u64::MAX, u64::MAX, false)
    };
    if f.registered {
        false
    } else if f.is_sending {
        f.key.term < compacted_term || f.key.idx < compacted_idx || (f.elapsed_secs matches Some(
            elapsed,
        ) && elapsed > timeout)
    } else {
        f.key.term <= compacted_term && (f.key.idx < compacted_idx || (f.key.idx == compacted_idx
            && !is_applying_snap))
    }
}

/// The garbage among `files`, in the order of `files`.
pub open spec fn snap_garbage<C>(
    peers: Map<u64, PeerView<C>>,
    timeout: u64,
    files: Seq<SnapFile>,
) -> Seq<SnapFile>
    decreases files.len(),
{
    if files.len() == 0 {
        Seq::empty()
    } else {
        let rest = snap_garbage(peers, timeout, files.drop_last());
        if spec_snap_is_garbage(peers, timeout, files.last()) {
            rest.push(files.last())
        } else {
            rest
        }
    }
}

/// A region as the store has persisted it, with the positions of its log.
#[derive(Debug)]
pub struct PersistedRegion {
    pub key: Vec<u8>,
    pub local_state: RegionLocalState,
    pub raft_state: RaftLocalState,
    pub apply_state: RaftApplyState,
}

/// Why the store cannot take a persisted region back in, if it cannot.
pub open spec fn spec_prepare_refusal<C>(
    store_id: u64,
    peers: Map<u64, PeerView<C>>,
    ranges: Map<Seq<u8>, u64>,
    rec: &PersistedRegion,
) -> Option<ErrorKind> {
    let region = rec.local_state.region@;
    if rec.key@ != spec_region_state_key(region.id) {
        Some(ErrorKind::Other { reason: Reason::InvalidMetaKey })
    } else if rec.local_state.state == PeerState::Tombstone {
        None
    } else if !indexes_ordered(rec.raft_state, rec.apply_state) {
        Some(ErrorKind::Other { reason: Reason::IndexOutOfRange })
    } else {
        match spec_find_peer(region.peers, store_id) {
            None => Some(ErrorKind::Other { reason: Reason::NoPeerOnStore }),
            Some(p) => if p.id == 0 {
                Some(ErrorKind::Other { reason: Reason::InvalidPeerId })
            } else if peers.contains_key(region.id) {
                Some(ErrorKind::Other { reason: Reason::DuplicatedRegion })
            } else if !valid_range(region) || overlaps_other(regions_of(peers), ranges, region) {
                Some(ErrorKind::Other { reason: Reason::RegionRejected })
            } else {
                None
            },
        }
    }
}

/// The peer that the store makes of a persisted region.
pub open spec fn spec_prepared_peer<C>(store_id: u64, rec: &PersistedRegion) -> PeerView<C> {
    let region = rec.local_state.region@;
    PeerView {
        peer: metapb::Peer { id: spec_find_peer(region.peers, store_id)->0.id, store_id },
        region_id: region.id,
        raft_group: crate::raftstore::store::peer::RaftStatusView {
            term: rec.raft_state.hard_state.term,
            leader_id: 0,
            role: StateRole::Follower,
            pending_conf: false,
            progress: Seq::empty(),
        },
        store: StorageView {
            region,
            raft_state: rec.raft_state,
            apply_state: rec.apply_state,
            snap_state: if rec.local_state.state == PeerState::Applying {
                SnapState::Applying
            } else {
                SnapState::Relax
            },
        },
        normals: Seq::empty(),
        conf_change: None,
        size_diff_hint: 0,
        pending_remove: false,
    }
}

/// The tasks that follow from taking a persisted region back in: a
/// snapshot that was being applied is applied again, and a region of one
/// peer stands for election.
pub open spec fn prepared_tasks(rec: &PersistedRegion) -> Seq<TaskView> {
    let region = rec.local_state.region@;
    (if rec.local_state.state == PeerState::Applying {
        seq![TaskView::SnapApply { region_id: region.id }]
    } else {
        Seq::empty()
    }) + (if region.peers.len() == 1 {
        seq![TaskView::Campaign { region_id: region.id }]
    } else {
        Seq::empty()
    })
}

impl<C> Store<C> {
    /// The base tick of the consensus layer: every peer that is not
    /// applying a snapshot is ticked, and may have something ready after.
    pub fn on_raft_base_tick(&mut self) -> (tasks: Vec<Task>)
        requires
            old(self).wf(),
        ensures
            final(self).wf(),
            tasks_view(tasks@) == tick_tasks(base_tick_regions(peer_views(old(self).region_peers@))),
            final(self).pending_raft_groups@ == pending_insert_all(
                old(self).pending_raft_groups@,
                base_tick_regions(peer_views(old(self).region_peers@)),
            ),
            final(self).cfg == old(self).cfg,
            final(self).store == old(self).store,
            final(self).region_peers == old(self).region_peers,
            final(self).region_ranges == old(self).region_ranges,
            final(self).peer_cache == old(self).peer_cache,
    {
        let mut tasks: Vec<Task> = Vec::new();
        let ghost views = peer_views(self.region_peers@);
        let mut i: usize = 0;
        proof {
            assert(views.subrange(0, 0) =~= Seq::<PeerView<C>>::empty());
            assert(tasks_view(tasks@) =~= tick_tasks(Seq::<u64>::empty()));
        }
        while i < self.region_peers.len()
            invariant
                i <= self.region_peers@.len(),
                views == peer_views(self.region_peers@),
                tasks_view(tasks@) == tick_tasks(base_tick_regions(views.subrange(0, i as int))),
                self.pending_raft_groups@ == pending_insert_all(
                    old(self).pending_raft_groups@,
                    base_tick_regions(views.subrange(0, i as int)),
                ),
                self.cfg == old(self).cfg,
                self.store == old(self).store,
                self.region_peers == old(self).region_peers,
                self.region_ranges == old(self).region_ranges,
                self.peer_cache == old(self).peer_cache,
            decreases self.region_peers@.len() - i,
        {
            proof {
                assert(views.subrange(0, i + 1).drop_last() =~= views.subrange(0, i as int));
                assert(views.subrange(0, i + 1).last() == self.region_peers@[i as int]@);
            }
            if !self.region_peers[i].is_applying_snap() {
                let region_id = self.region_peers[i].region_id;
                let ghost before = base_tick_regions(views.subrange(0, i as int));
                push_task(&mut tasks, Task::RaftTick { region_id });
                self.add_pending(region_id);
                proof {
                    assert(before.push(region_id).drop_last() =~= before);
                    assert(tasks_view(tasks@) =~= tick_tasks(before.push(region_id)));
                }
            }
            i += 1;
        }
        proof {
            assert(views.subrange(0, i as int) =~= views);
        }
        tasks
    }

    /// The log compaction tick: for every region that this store leads and
    /// whose log is due, a compaction is proposed.
    pub fn on_raft_gc_log_tick(&self) -> (tasks: Vec<Task>)
        requires
            self.wf(),
        ensures
            ({
                let reqs = gc_requests(peer_views(self.region_peers@), self.cfg);
                &&& tasks@.len() == reqs.len()
                &&& forall|i: int|
                    0 <= i < tasks@.len() ==> (#[trigger] tasks@[i] matches Task::Propose {
                        request,
                    } && is_compact_log_request(&request, reqs[i].0, reqs[i].1, reqs[i].2))
            }),
    {
        let mut tasks: Vec<Task> = Vec::new();
        let ghost views = peer_views(self.region_peers@);
        let mut i: usize = 0;
        proof {
            assert(views.subrange(0, 0) =~= Seq::<PeerView<C>>::empty());
        }
        while i < self.region_peers.len()
            invariant
                i <= self.region_peers@.len(),
                self.wf(),
                views == peer_views(self.region_peers@),
                ({
                    let reqs = gc_requests(views.subrange(0, i as int), self.cfg);
                    &&& tasks@.len() == reqs.len()
                    &&& forall|k: int|
                        0 <= k < tasks@.len() ==> (#[trigger] tasks@[k] matches Task::Propose {
                            request,
                        } && is_compact_log_request(&request, reqs[k].0, reqs[k].1, reqs[k].2))
                }),
            decreases self.region_peers@.len() - i,
        {
            proof {
                assert(views.subrange(0, i + 1).drop_last() =~= views.subrange(0, i as int));
                assert(views.subrange(0, i + 1).last() == self.region_peers@[i as int]@);
            }
            let peer = &self.region_peers[i];
            assert(peer.wf());
            if peer.is_leader() {
                // Leader will replicate the compact log command to followers,
                // If we use current replicated_index (like 10) as the compact index,
                // when we replicate this log, the newest replicated_index will be 11,
                // but we only compact the log to 10, not 11, at that time,
                // the first index is 10, and replicated_index is 11, with an extra log,
                // and we will do compact again with compact index 11, in cycles...
                // So we introduce a threshold, if replicated index - first index > threshold,
                // we will try to compact log.
                // raft log entries[..............................................]
                //                  ^                                       ^
                //                  |-----------------threshold------------ |
                //              first_index                         replicated_index
                if let Some(replicated_idx) = min_matched_of(&peer.raft_group.progress) {
                    let applied_idx = peer.store.applied_index();
                    let first_idx = peer.store.first_index();
                    let compact_idx = if applied_idx > first_idx && applied_idx - first_idx
                        >= self.cfg.raft_log_gc_limit {
                        Some(applied_idx)
                    } else if replicated_idx < first_idx || replicated_idx - first_idx
                        <= self.cfg.raft_log_gc_threshold {
                        None
                    } else {
                        Some(replicated_idx)
                    };
                    if let Some(compact_idx) = compact_idx {
                        // Create a compact log request and notify directly.
                        let request = new_compact_log_request(
                            peer.region_id,
                            peer.peer,
                            compact_idx,
                        );
                        tasks.push(Task::Propose { request });
                    }
                }
            }
            i += 1;
        }
        proof {
            assert(views.subrange(0, i as int) =~= views);
        }
        tasks
    }

    /// The split check tick: every region that this store leads and that
    /// has grown enough is scanned for a split key, unless the worker is
    /// still busy with earlier scans.
    pub fn on_split_region_check_tick(&mut self, worker_busy: bool) -> (tasks: Vec<Task>)
        requires
            old(self).wf(),
        ensures
            final(self).wf(),
            final(self).cfg == old(self).cfg,
            final(self).store == old(self).store,
            final(self).region_ranges == old(self).region_ranges,
            final(self).peer_cache == old(self).peer_cache,
            final(self).pending_raft_groups == old(self).pending_raft_groups,
            worker_busy ==> tasks@.len() == 0 && final(self).region_peers == old(self).region_peers,
            !worker_busy ==> tasks_view(tasks@) == split_check_tasks(
                peer_views(old(self).region_peers@),
                old(self).cfg,
            ) && final(self).region_peers@.len() == old(self).region_peers@.len() && forall|
                k: int,
            |
                0 <= k < old(self).region_peers@.len() ==> (#[trigger] final(self).region_peers@[k])@ == after_split_check(
                    old(self).region_peers@[k]@,
                    old(self).cfg,
                ),
    {
        let mut tasks: Vec<Task> = Vec::new();
        // To avoid frequent scan, we only add new scan tasks if all previous tasks
        // have finished.
        if worker_busy {
            return tasks;
        }
        let ghost views = peer_views(self.region_peers@);
        let ghost cfg = self.cfg;
        let n = self.region_peers.len();
        let mut i: usize = 0;
        proof {
            assert(views.subrange(0, 0) =~= Seq::<PeerView<C>>::empty());
            assert(tasks_view(tasks@) =~= Seq::<TaskView>::empty());
        }
        while i < n
            invariant
                i <= n,
                n == old(self).region_peers@.len(),
                self.region_peers@.len() == n,
                views == peer_views(old(self).region_peers@),
                cfg == old(self).cfg,
                self.wf(),
                self.regions() == old(self).regions(),
                tasks_view(tasks@) == split_check_tasks(views.subrange(0, i as int), cfg),
                forall|k: int|
                    0 <= k < i ==> (#[trigger] self.region_peers@[k])@ == after_split_check(
                        views[k],
                        cfg,
                    ),
                forall|k: int| i <= k < n ==> #[trigger] self.region_peers@[k] == old(self).region_peers@[k],
                self.cfg == old(self).cfg,
                self.store == old(self).store,
                self.region_ranges == old(self).region_ranges,
                self.peer_cache == old(self).peer_cache,
                self.pending_raft_groups == old(self).pending_raft_groups,
            decreases n - i,
        {
            proof {
                assert(views.subrange(0, i + 1).drop_last() =~= views.subrange(0, i as int));
                assert(views.subrange(0, i + 1).last() == views[i as int]);
                assert(self.region_peers@[i as int] == old(self).region_peers@[i as int]);
            }
            let due = self.region_peers[i].is_leader() && self.region_peers[i].size_diff_hint
                >= self.cfg.region_check_size_diff;
            if due {
                let ghost peers0 = self.region_peers@;
                let mut peer = self.region_peers.remove(i);
                let region = peer.region();
                push_task(
                    &mut tasks,
                    Task::SplitCheck {
                        region_id: peer.region_id,
                        epoch: region.region_epoch,
                        start_key: to_vec(region.start_key.as_slice()),
                        end_key: to_vec(region.end_key.as_slice()),
                    },
                );
                peer.size_diff_hint = 0;
                proof {
                    lemma_update_peer(peers0, i as int, peer);
                    lemma_peer_at(peers0, i as int);
                    lemma_regions_of(peer_map(peers0), peer.region_id, peer@);
                    assert(regions_of(peer_map(peers0)).insert(peer.region_id, peer@.store.region)
                        =~= regions_of(peer_map(peers0)));
                }
                self.region_peers.insert(i, peer);
                proof {
                    assert(self.region_peers@ == peers0.update(i as int, peer));
                }
            }
            i += 1;
        }
        proof {
            assert(views.subrange(0, i as int) =~= views);
        }
        tasks
    }

    /// Takes in the split key that a scan of region `region_id` at epoch
    /// `epoch` found: the placement driver is asked for the ids of a split,
    /// unless the key is empty or no stored user key, the store no longer
    /// leads the region, or the region has changed its range since.
    pub fn on_split_check_result(&self, region_id: u64, epoch: RegionEpoch, split_key: &Vec<u8>) -> (r:
        Option<Task>)
        requires
            self.wf(),
        ensures
            ({
                let peers = self.peers();
                if split_key@.len() > 0 && split_key@[0] == keys::DATA_PREFIX && peers.contains_key(
                    region_id,
                ) && peers[region_id].raft_group.role == StateRole::Leader
                    && peers[region_id].store.region.region_epoch.version == epoch.version {
                    r matches Some(task) && task@ == (TaskView::PdAskSplit {
                        region: peers[region_id].store.region,
                        split_key: split_key@.skip(1),
                        peer: peers[region_id].peer,
                    })
                } else {
                    r is None
                }
            }),
    {
        if split_key.len() == 0 {
            return None;
        }
        let peer = match self.get_peer(region_id) {
            None => {
                return None;
            },
            Some(p) => p,
        };
        if !peer.is_leader() {
            // region on this store is no longer leader, skipped.
            return None;
        }
        let region = peer.region();
        if region.region_epoch.version != epoch.version {
            return None;
        }
        match keys::origin_key(split_key.as_slice()) {
            None => None,
            Some(key) => {
                proof {
                    assert(split_key@.skip(1) =~= key@);
                }
                Some(Task::PdAskSplit { region: region.clone(), split_key: key, peer: peer.peer })
            },
        }
    }

    /// The heartbeat tick: every region that this store leads is reported
    /// to the placement driver.
    pub fn on_pd_heartbeat_tick(&self) -> (tasks: Vec<Task>)
        ensures
            tasks_view(tasks@) == heartbeat_tasks(peer_views(self.region_peers@)),
    {
        let mut tasks: Vec<Task> = Vec::new();
        let ghost views = peer_views(self.region_peers@);
        let mut i: usize = 0;
        proof {
            assert(views.subrange(0, 0) =~= Seq::<PeerView<C>>::empty());
            assert(tasks_view(tasks@) =~= Seq::<TaskView>::empty());
        }
        while i < self.region_peers.len()
            invariant
                i <= self.region_peers@.len(),
                views == peer_views(self.region_peers@),
                tasks_view(tasks@) == heartbeat_tasks(views.subrange(0, i as int)),
            decreases self.region_peers@.len() - i,
        {
            proof {
                assert(views.subrange(0, i + 1).drop_last() =~= views.subrange(0, i as int));
                assert(views.subrange(0, i + 1).last() == self.region_peers@[i as int]@);
            }
            let peer = &self.region_peers[i];
            if peer.is_leader() {
                push_task(
                    &mut tasks,
                    Task::PdHeartbeat { region: peer.region().clone(), peer: peer.peer },
                );
            }
            i += 1;
        }
        proof {
            assert(views.subrange(0, i as int) =~= views);
        }
        tasks
    }

    /// The report of the store to the placement driver, from what the disk
    /// and the engine say: the capacity of the disk and what it has free,
    /// what the engine uses, and how many snapshots are on their way out
    /// and in.
    pub fn store_heartbeat_pd(
        &self,
        disk_capacity: u64,
        disk_available: u64,
        used_size: u64,
        sending_count: usize,
        receiving_count: usize,
    ) -> (task: Task)
        ensures
            task@ == (TaskView::PdStoreHeartbeat {
                stats: spec_store_stats(
                    self.store.id,
                    self.cfg.capacity,
                    disk_capacity,
                    disk_available,
                    used_size,
                    self.region_peers@.len(),
                    sending_count as nat,
                    receiving_count as nat,
                ),
            }),
    {
        let capacity = if disk_capacity < self.cfg.capacity {
            disk_capacity
        } else {
            self.cfg.capacity
        };
        // what the engine uses is gone from the capacity
        let mut available = if capacity > used_size {
            capacity - used_size
        } else {
            0
        };
        // the disk may hold more than the engine's files
        if available > disk_available {
            available = disk_available
        }
        let stats = StoreStats {
            store_id: self.store_id(),
            capacity,
            available,
            region_count: clamp_count(self.region_peers.len()),
            sending_snap_count: clamp_count(sending_count),
            receiving_snap_count: clamp_count(receiving_count),
        };
        Task::PdStoreHeartbeat { stats }
    }

    /// Picks the garbage among the snapshot files `snap_files`.
    pub fn handle_snap_mgr_gc(&self, snap_files: &Vec<SnapFile>) -> (garbage: Vec<SnapFile>)
        requires
            self.wf(),
        ensures
            garbage@ == snap_garbage(self.peers(), self.cfg.snap_gc_timeout, snap_files@),
    {
        let mut garbage: Vec<SnapFile> = Vec::new();
        let ghost peers = self.peers();
        let ghost timeout = self.cfg.snap_gc_timeout;
        let mut i: usize = 0;
        proof {
            assert(snap_files@.subrange(0, 0) =~= Seq::<SnapFile>::empty());
        }
        while i < snap_files.len()
            invariant
                i <= snap_files@.len(),
                self.wf(),
                peers == self.peers(),
                timeout == self.cfg.snap_gc_timeout,
                garbage@ == snap_garbage(peers, timeout, snap_files@.subrange(0, i as int)),
            decreases snap_files@.len() - i,
        {
            proof {
                assert(snap_files@.subrange(0, i + 1).drop_last() =~= snap_files@.subrange(
                    0,
                    i as int,
                ));
                assert(snap_files@.subrange(0, i + 1).last() == snap_files@[i as int]);
            }
            let f = snap_files[i];
            let key = f.key;
            i += 1;
            if f.registered {
                continue ;
            }
            let (compacted_idx, compacted_term, is_applying_snap) = match self.get_peer(
                key.region_id,
            ) {
                None => {
                    // region is deleted
                    (u64::MAX, u64::MAX, false)
                },
                Some(peer) => {
                    let s = peer.get_store();
                    (s.truncated_index(), s.truncated_term(), s.is_applying_snap())
                },
            };
            if f.is_sending {
                if key.term < compacted_term || key.idx < compacted_idx {
                    garbage.push(f);
                } else if let Some(elapsed) = f.elapsed_secs {
                    if elapsed > self.cfg.snap_gc_timeout {
                        garbage.push(f);
                    }
                }
            } else if key.term <= compacted_term && (key.idx < compacted_idx || key.idx
                == compacted_idx && !is_applying_snap) {
                garbage.push(f);
            }
        }
        proof {
            assert(snap_files@.subrange(0, i as int) =~= snap_files@);
        }
        garbage
    }

    /// What to tell the consensus layer of region `region_id` about the
    /// snapshot for peer `to_peer_id`: nothing if the store has no peer of
    /// the region or has never met the recipient.
    pub fn on_report_snapshot(&self, region_id: u64, to_peer_id: u64, status: SnapshotStatus) -> (r:
        Option<RaftReport>)
        requires
            self.wf(),
        ensures
            r == if self.peers().contains_key(region_id) && self.peer_cache@.contains_key(
                to_peer_id,
            ) {
                Some(RaftReport::Snapshot { to_peer_id, status })
            } else {
                None
            },
    {
        if self.get_peer(region_id).is_some() {
            // The peer must exist in peer_cache.
            if self.peer_cache.get(&to_peer_id).is_none() {
                // If to_peer is removed immediately after sending snapshot, the command
                // may be applied before SnapshotStatus is reported. So here just ignore.
                return None;
            }
            return Some(RaftReport::Snapshot { to_peer_id, status });
        }
        None
    }

    /// What to tell the consensus layer of region `region_id` about peer
    /// `to_peer_id`, which could not be reached.
    pub fn on_unreachable(&self, region_id: u64, to_peer_id: u64) -> (r: Option<RaftReport>)
        requires
            self.wf(),
        ensures
            r == if self.peers().contains_key(region_id) {
                Some(RaftReport::Unreachable { to_peer_id })
            } else {
                None
            },
    {
        if self.get_peer(region_id).is_some() {
            Some(RaftReport::Unreachable { to_peer_id })
        } else {
            None
        }
    }

    /// Sets the snapshot state of the peer at place `i`.
    fn set_snap_state_at(&mut self, i: usize, state: SnapState)
        requires
            old(self).wf(),
            i < old(self).region_peers@.len(),
        ensures
            final(self).wf(),
            final(self).peers() == old(self).peers().insert(
                old(self).region_peers@[i as int].region_id,
                PeerView {
                    store: StorageView {
                        snap_state: state,
                        ..old(self).region_peers@[i as int]@.store
                    },
                    ..old(self).region_peers@[i as int]@
                },
            ),
            final(self).cfg == old(self).cfg,
            final(self).store == old(self).store,
            final(self).region_ranges == old(self).region_ranges,
            final(self).peer_cache == old(self).peer_cache,
            final(self).pending_raft_groups == old(self).pending_raft_groups,
    {
        let ghost peers0 = self.region_peers@;
        let mut peer = self.region_peers.remove(i);
        peer.store.set_snap_state(state);
        proof {
            lemma_update_peer(peers0, i as int, peer);
            lemma_peer_at(peers0, i as int);
            lemma_regions_of(peer_map(peers0), peer.region_id, peer@);
            assert(regions_of(peer_map(peers0)).insert(peer.region_id, peer@.store.region)
                =~= regions_of(peer_map(peers0)));
        }
        self.region_peers.insert(i, peer);
        proof {
            assert(self.region_peers@ == peers0.update(i as int, peer));
        }
    }

    /// Takes in what came of generating a snapshot for region `region_id`:
    /// a peer that still waits for it has a snapshot to send, or has
    /// failed to make one; any other peer does not care.
    pub fn on_snap_gen_res(&mut self, region_id: u64, generated: bool)
        requires
            old(self).wf(),
        ensures
            final(self).wf(),
            final(self).cfg == old(self).cfg,
            final(self).store == old(self).store,
            final(self).region_ranges == old(self).region_ranges,
            final(self).peer_cache == old(self).peer_cache,
            final(self).pending_raft_groups == old(self).pending_raft_groups,
            ({
                let peers = old(self).peers();
                if peers.contains_key(region_id) && peers[region_id].store.snap_state
                    == SnapState::Generating {
                    final(self).peers() == peers.insert(
                        region_id,
                        PeerView {
                            store: StorageView {
                                snap_state: if generated {
                                    SnapState::Snap
                                } else {
                                    SnapState::Failed
                                },
                                ..peers[region_id].store
                            },
                            ..peers[region_id]
                        },
                    )
                } else {
                    final(self).peers() == peers
                }
            }),
    {
        let i = match self.peer_index(region_id) {
            None => {
                return ;
            },
            Some(i) => i,
        };
        proof {
            lemma_peer_at(self.region_peers@, i as int);
        }
        if !self.region_peers[i].store.is_snap_state(SnapState::Generating) {
            // snapshot no need anymore.
            return ;
        }
        if generated {
            self.set_snap_state_at(i, SnapState::Snap);
        } else {
            self.set_snap_state_at(i, SnapState::Failed);
        }
    }

    /// Takes in what came of applying the snapshot of region `region_id`.
    /// Fails if the store has no peer of the region, if the peer applies
    /// no snapshot, or if the snapshot could not be applied; else the peer
    /// is done with the snapshot.
    pub fn on_snap_apply_res(&mut self, region_id: u64, is_success: bool) -> (r: Result<(), Error>)
        requires
            old(self).wf(),
        ensures
            final(self).wf(),
            final(self).cfg == old(self).cfg,
            final(self).store == old(self).store,
            final(self).region_ranges == old(self).region_ranges,
            final(self).peer_cache == old(self).peer_cache,
            final(self).pending_raft_groups == old(self).pending_raft_groups,
            ({
                let peers = old(self).peers();
                if !peers.contains_key(region_id) {
                    r matches Err(e) && e@ == (ErrorKind::RegionNotFound { region_id }) && final(self).peers() == peers
                } else if peers[region_id].store.snap_state != SnapState::Applying {
                    r matches Err(e) && e@ == (ErrorKind::Other {
                        reason: Reason::NotApplyingSnapshot,
                    }) && final(self).peers() == peers
                } else if !is_success {
                    r matches Err(e) && e@ == (ErrorKind::Other {
                        reason: Reason::SnapshotApplyFailed,
                    }) && final(self).peers() == peers
                } else {
                    r is Ok && final(self).peers() == peers.insert(
                        region_id,
                        PeerView {
                            store: StorageView {
                                snap_state: SnapState::Relax,
                                ..peers[region_id].store
                            },
                            ..peers[region_id]
                        },
                    )
                }
            }),
    {
        let i = match self.peer_index(region_id) {
            None => {
                return Err(Error::RegionNotFound { region_id });
            },
            Some(i) => i,
        };
        proof {
            lemma_peer_at(self.region_peers@, i as int);
        }
        if !self.region_peers[i].store.is_snap_state(SnapState::Applying) {
            return Err(Error::Other { reason: Reason::NotApplyingSnapshot });
        }
        if !is_success {
            // the region stays as it is: its peer goes on applying.
            return Err(Error::Other { reason: Reason::SnapshotApplyFailed });
        }
        self.set_snap_state_at(i, SnapState::Relax);
        Ok(())
    }

    /// Takes a persisted region back in when the store starts. A region
    /// that was destroyed is passed over.
    pub fn prepare_region(&mut self, rec: PersistedRegion) -> (r: Result<Vec<Task>, Error>)
        requires
            old(self).wf(),
        ensures
            final(self).wf(),
            final(self).cfg == old(self).cfg,
            final(self).store == old(self).store,
            final(self).peer_cache == old(self).peer_cache,
            final(self).pending_raft_groups == old(self).pending_raft_groups,
            ({
                let peers = old(self).peers();
                let ranges = old(self).region_ranges@;
                let region = rec.local_state.region@;
                match spec_prepare_refusal(old(self).store.id, peers, ranges, &rec) {
                    Some(e) => r matches Err(err) && err@ == e && final(self).peers() == peers
                        && final(self).region_ranges@ == ranges,
                    None => if rec.local_state.state == PeerState::Tombstone {
                        r matches Ok(tasks) && tasks@.len() == 0 && final(self).peers() == peers
                            && final(self).region_ranges@ == ranges
                    } else {
                        r matches Ok(tasks) && tasks_view(tasks@) == prepared_tasks(&rec) && final(self).peers() == peers.insert(
                            region.id,
                            spec_prepared_peer::<C>(old(self).store.id, &rec),
                        ) && final(self).region_ranges@ == ranges.insert(enc_end(region), region.id)
                    },
                }
            }),
    {
        let PersistedRegion { key, local_state, raft_state, apply_state } = rec;
        let mut tasks: Vec<Task> = Vec::new();
        proof {
            assert(tasks_view(tasks@) =~= Seq::<TaskView>::empty());
        }
        let region_id = local_state.region.id;
        let expected = keys::region_state_key(region_id);
        if !crate::util::codec::order::bytes_eq(key.as_slice(), expected.as_slice()) {
            return Err(Error::Other { reason: Reason::InvalidMetaKey });
        }
        let RegionLocalState { state, region } = local_state;
        match state {
            PeerState::Tombstone => {
                return Ok(tasks);
            },
            _ => {},
        }
        let storage = match PeerStorage::new(region, raft_state, apply_state) {
            Err(e) => {
                return Err(e);
            },
            Ok(s) => s,
        };
        let (mut peer, campaign) = match Peer::create(self.store_id(), storage) {
            Err(e) => {
                return Err(e);
            },
            Ok(p) => p,
        };
        proof {
            util::lemma_peer_position(peer.store.region@.peers, self.store.id);
        }
        if self.peer_index(region_id).is_some() {
            return Err(Error::Other { reason: Reason::DuplicatedRegion });
        }
        if !range_is_valid(&peer.store.region) || self.overlaps_other(&peer.store.region) {
            return Err(Error::Other { reason: Reason::RegionRejected });
        }
        match state {
            PeerState::Applying => {
                peer.store.set_snap_state(SnapState::Applying);
                push_task(&mut tasks, Task::SnapApply { region_id });
            },
            _ => {},
        }
        if campaign {
            push_task(&mut tasks, Task::Campaign { region_id });
        }
        proof {
            assert(peer@.raft_group.progress =~= Seq::empty());
            assert(peer@.normals =~= Seq::empty());
            assert(peer@ == spec_prepared_peer::<C>(self.store.id, &rec));
            lemma_put_peer(self.region_peers@, peer);
            lemma_regions_of(self.peers(), region_id, peer@);
            lemma_insert_region(self.regions(), self.region_ranges@, peer@.store.region, true);
            assert(tasks_view(tasks@) =~= prepared_tasks(&rec));
        }
        let _ = self.region_ranges.insert(keys::enc_end_key(&peer.store.region), region_id);
        self.region_peers.push(peer);
        Ok(tasks)
    }
}

/// The smallest position up to which the log of every peer is known to
/// match.
fn min_matched_of(progress: &Vec<Progress>) -> (r: Option<u64>)
    ensures
        r == min_matched(progress@),
{
    let mut r: Option<u64> = None;
    let mut i: usize = 0;
    proof {
        assert(progress@.subrange(0, 0) =~= Seq::<Progress>::empty());
    }
    while i < progress.len()
        invariant
            i <= progress@.len(),
            r == min_matched(progress@.subrange(0, i as int)),
        decreases progress@.len() - i,
    {
        proof {
            assert(progress@.subrange(0, i + 1).drop_last() =~= progress@.subrange(0, i as int));
            assert(progress@.subrange(0, i + 1).last() == progress@[i as int]);
        }
        let matched = progress[i].matched;
        r = match r {
            None => Some(matched),
            Some(m) => Some(
                if matched < m {
                    matched
                } else {
                    m
                },
            ),
        };
        i += 1;
    }
    proof {
        assert(progress@.subrange(0, i as int) =~= progress@);
    }
    r
}

/// A count as a 32-bit number, or the largest one if it does not fit.
fn clamp_count(n: usize) -> (r: u32)
    ensures
        r == clamp_u32(n as nat),
{
    if n > u32::MAX as usize {
        u32::MAX
    } else {
        n as u32
    }
}

} // verus!
