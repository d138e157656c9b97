//! What the store does when the consensus layer of one of its peers is
//! ready: the peer handles the ready, and the store takes up what the
//! applied commands ask of it.

use crate::proto::metapb;
use crate::proto::metapb::{Region, RegionView};
use crate::proto::raft_cmdpb::CfName;
use crate::proto::raft_serverpb::RaftTruncatedState;
use crate::proto::raftpb::ConfChangeType;
use crate::raftstore::errors::{Error, ErrorKind, Reason};
use crate::raftstore::store::apply::{
    error_view, lemma_entries_results_follow, region_after, region_after_all, result_follows,
    results_follow, spec_handle_entries,
};
use crate::raftstore::store::engine::{Snapshot, SnapshotView};
use crate::raftstore::store::keys;
use crate::raftstore::store::peer::{
    batches_view, exec_results_view, notifications_view, ExecResult, ExecResultView, Peer, PeerView,
};
use crate::raftstore::store::peer_storage::{PeerStorage, SnapState};
use crate::raftstore::store::ready::{
    destroyed_view, envelopes_view, messages_view, spec_destroyed, spec_envelopes,
    spec_handle_ready, spec_storage_ready, Destroyed, Ready, ReadyOutput,
};
use crate::raftstore::store::region_ranges::{
    enc_end, initialized, lemma_insert_region, lemma_remove_region, lemma_replace_same_range,
    lemma_shrink_region, overlaps_other, ranges_consistent, registered, valid_range,
};
use crate::raftstore::store::store::{
    first_refusal, lemma_peer_at, lemma_put_peer, lemma_regions_of, lemma_take_peer, peer_map,
    regions_of, spec_on_exec_result, spec_on_exec_results, spec_split_peer, split_tasks,
    ResultsModel, Store,
};
use crate::raftstore::store::task::{push_task, tasks_view, Task, TaskView};
use crate::raftstore::store::util;
use crate::util::codec::order::bytes_lt;
use vstd::prelude::*;

verus! {

broadcast use vstd::std_specs::hash::group_hash_axioms;

/// What the store hands back after a ready of one of its peers.
pub struct StoreReady<C> {
    /// What the peer made of the ready.
    pub ready: ReadyOutput<C>,
    /// The work that follows from the applied commands.
    pub tasks: Vec<Task>,
    /// What destroying the peer left, if a command removed it.
    pub destroyed: Option<Destroyed<C>>,
    /// Why the store could not take up a split that the peer applied, if
    /// there was one: the store cannot go on.
    pub refused: Option<Error>,
}

/// Why the store refuses a ready before the peer sees it, if it does: a
/// snapshot must be for the peer's region, for a range that holds a key,
/// and must overlap no other region of the store; and commands are applied
/// only to a region whose range the store has recorded.
pub open spec fn spec_ready_guard<C>(
    regions: Map<u64, RegionView>,
    ranges: Map<Seq<u8>, u64>,
    peer: PeerView<C>,
    ready: &Ready,
) -> Option<ErrorKind> {
    if peer.store.snap_state == SnapState::Applying {
        None
    } else {
        match ready.snapshot {
            Some(s) => if s.region.id != peer.region_id || !valid_range(s.region@)
                || overlaps_other(regions, ranges, s.region@) {
                Some(ErrorKind::Other { reason: Reason::RegionRejected })
            } else {
                None
            },
            None => if ready.committed_entries@.len() > 0 && !registered(
                regions,
                ranges,
                peer.region_id,
            ) {
                Some(ErrorKind::Other { reason: Reason::RegionNotRecorded })
            } else {
                None
            },
        }
    }
}

/// The record of where regions end after the peer of region `id` applied
/// a snapshot that moved it from `change.0` to `change.1`.
pub open spec fn ranges_after_snapshot(
    ranges: Map<Seq<u8>, u64>,
    id: u64,
    change: Option<(RegionView, RegionView)>,
) -> Map<Seq<u8>, u64> {
    match change {
        None => ranges,
        Some((prev, region)) => (if ranges.contains_key(enc_end(prev)) && ranges[enc_end(prev)]
            == id {
            ranges.remove(enc_end(prev))
        } else {
            ranges
        }).insert(enc_end(region), id),
    }
}

/// A snapshot keeps the store's record of where regions end right. Where
/// the peer of a region takes in a snapshot that moves it from `prev` to
/// `region`, for a range that holds a key and overlaps no other region of
/// the store, the record of where the region ended leaves, if there was
/// one, and the record of where it ends now enters; no other record
/// changes; and regions and record agree again.
pub proof fn lemma_snapshot_keeps_ranges(
    regions: Map<u64, RegionView>,
    ranges: Map<Seq<u8>, u64>,
    prev: RegionView,
    region: RegionView,
)
    requires
        ranges_consistent(regions, ranges),
        regions.contains_key(prev.id),
        regions[prev.id] == prev,
        region.id == prev.id,
        valid_range(region),
        !overlaps_other(regions, ranges, region),
    ensures
        ({
            let after = ranges_after_snapshot(ranges, prev.id, Some((prev, region)));
            &&& ranges_consistent(regions.insert(region.id, region), after)
            &&& registered(regions.insert(region.id, region), after, region.id)
            &&& enc_end(prev) != enc_end(region) ==> !(after.contains_key(enc_end(prev))
                && after[enc_end(prev)] == prev.id)
            &&& forall|k: Seq<u8>|
                k != enc_end(prev) && k != enc_end(region) ==> (#[trigger] after.contains_key(k)
                    == ranges.contains_key(k)) && (ranges.contains_key(k) ==> after[k]
                    == ranges[k])
        }),
{
    let id = prev.id;
    let others = regions.remove(id);
    let without = if registered(regions, ranges, id) {
        ranges.remove(enc_end(prev))
    } else {
        ranges
    };
    lemma_remove_region(regions, ranges, id);
    lemma_insert_region(others, without, region, true);
    assert(others.insert(id, region) =~= regions.insert(id, region));
    // a record under the old end is that of this region
    if enc_end(prev) != enc_end(region) && ranges.contains_key(enc_end(prev)) && ranges[enc_end(
        prev,
    )] != id {
        let other = ranges[enc_end(prev)];
        assert(regions.contains_key(other));
    }
}

/// Each result of a run follows from the region that the results before
/// it left.
pub proof fn lemma_results_follow_at(r: RegionView, results: Seq<ExecResultView>, k: int)
    requires
        results_follow(r, results),
        0 <= k < results.len(),
    ensures
        result_follows(region_after_all(r, results.subrange(0, k)), results[k]),
        region_after_all(r, results.subrange(0, k + 1)) == region_after(
            region_after_all(r, results.subrange(0, k)),
            Some(results[k]),
        ),
        results_follow(r, results.subrange(0, k)),
    decreases results.len() - k,
{
    assert(results.subrange(0, k + 1).drop_last() =~= results.subrange(0, k));
    if k + 1 == results.len() {
        assert(results.subrange(0, k + 1) =~= results);
        assert(results.drop_last() =~= results.subrange(0, k));
    } else {
        lemma_results_follow_at(r, results, k + 1);
        assert(results.subrange(0, k + 1).drop_last() =~= results.subrange(0, k));
    }
}

/// No results, no commands: a run without entries has no results.
proof fn lemma_no_entries_no_results<C>(
    m: PeerView<C>,
    cache: Map<u64, metapb::Peer>,
    snap: SnapshotView,
)
    ensures
        spec_handle_entries(m, cache, snap, Seq::empty()).exec_results.len() == 0,
{
}

/// A split onto a region that the store already holds is refused. Where
/// the right half of a split has the id of a region of the store whose
/// range is known, the split is refused as a duplicate: the record of the
/// region that was split moves to the split key, and nothing else
/// changes: no peer is made for the right half, no record and no task.
pub proof fn lemma_split_onto_held_region<C>(
    s: ResultsModel<C>,
    store_id: u64,
    hint: u64,
    held: PeerView<C>,
    cur: RegionView,
    left: RegionView,
    right: RegionView,
)
    requires
        !s.destroyed,
        ranges_consistent(regions_of(s.peers).insert(cur.id, cur), s.ranges),
        registered(regions_of(s.peers).insert(cur.id, cur), s.ranges, cur.id),
        result_follows(cur, ExecResultView::SplitRegion { left, right }),
        right.id == cur.id || (s.peers.contains_key(right.id) && initialized(
            s.peers[right.id].store.region,
        )),
    ensures
        ({
            let s1 = spec_on_exec_result(
                s,
                store_id,
                hint,
                held,
                ExecResultView::SplitRegion { left, right },
            );
            &&& s1.refused == first_refusal(
                s.refused,
                ErrorKind::Other { reason: Reason::DuplicatedRegion },
            )
            &&& s1.peers == s.peers
            &&& s1.tasks == s.tasks
            &&& s1.ranges == s.ranges.remove(enc_end(cur)).insert(enc_end(left), left.id)
            &&& !s1.destroyed
        }),
{
    let regions = regions_of(s.peers).insert(cur.id, cur);
    assert(enc_end(right) == enc_end(cur));
    if right.id != cur.id {
        let existing = s.peers[right.id].store.region;
        assert(regions.contains_key(right.id));
        assert(regions[right.id] == existing);
        assert(registered(regions, s.ranges, right.id));
        lemma_shrink_region(regions, s.ranges, left, right);
        assert(enc_end(existing) != enc_end(left));
        assert(enc_end(existing) != enc_end(cur));
    }
}

/// Keeps the refusal `e`, unless one is kept already.
fn refuse(refused: &mut Option<Error>, e: Error)
    ensures
        error_view(*final(refused)) == first_refusal(error_view(*old(refused)), e@),
{
    if refused.is_none() {
        *refused = Some(e);
    }
}

impl<C> Store<C> {
    /// What a store needs to take up the result `res` of a ready of the peer
    /// `held`, whose region was `cur` before the command of the result.
    pub open spec fn ready_for(&self, held: &Peer<C>, cur: RegionView, res: ExecResultView) -> bool {
        &&& held.wf()
        &&& self.wf_holding(cur)
        &&& registered(self.regions().insert(cur.id, cur), self.region_ranges@, cur.id)
        &&& result_follows(cur, res)
        &&& cur.id == held.region_id
    }

    /// Whether the store, with the tasks `tasks`, is what `before` with the
    /// tasks `tasks0` becomes by taking up the result `res`.
    pub open spec fn took_up(
        &self,
        before: &Store<C>,
        tasks0: Seq<Task>,
        tasks: Seq<Task>,
        refused0: Option<Error>,
        refused: Option<Error>,
        held: &Peer<C>,
        cur: RegionView,
        res: ExecResultView,
        now_destroyed: bool,
    ) -> bool {
        let s0 = ResultsModel {
            peers: before.peers(),
            ranges: before.region_ranges@,
            tasks: tasks_view(tasks0),
            destroyed: false,
            refused: error_view(refused0),
        };
        let s1 = spec_on_exec_result(s0, before.store.id, before.cfg.region_check_size_diff, held@, res);
        let next = region_after(cur, Some(res));
        &&& self.peers() == s1.peers
        &&& self.region_ranges@ == s1.ranges
        &&& tasks_view(tasks) == s1.tasks
        &&& error_view(refused) == s1.refused
        &&& now_destroyed == s1.destroyed
        &&& !now_destroyed ==> self.wf_holding(next) && registered(
            self.regions().insert(next.id, next),
            self.region_ranges@,
            next.id,
        ) && next.id == held.region_id
        &&& now_destroyed ==> self.wf()
        &&& self.cfg == before.cfg
        &&& self.store == before.store
        &&& self.peer_cache == before.peer_cache
        &&& self.pending_raft_groups == before.pending_raft_groups
    }

    /// Takes up a change of membership: a leader reports the region to the
    /// placement driver, and a peer that was removed from its own store is
    /// to be destroyed.
    fn on_ready_change_peer(
        &mut self,
        held: &Peer<C>,
        change_type: ConfChangeType,
        peer: metapb::Peer,
        region: &Region,
        tasks: &mut Vec<Task>,
        refused: &mut Option<Error>,
        Ghost(cur): Ghost<RegionView>,
    ) -> (now_destroyed: bool)
        requires
            old(self).ready_for(
                held,
                cur,
                ExecResultView::ChangePeer { change_type, peer, region: region@ },
            ),
        ensures
            final(self).took_up(
                old(self),
                old(tasks)@,
                final(tasks)@,
                *old(refused),
                *final(refused),
                held,
                cur,
                ExecResultView::ChangePeer { change_type, peer, region: region@ },
                now_destroyed,
            ),
    {
        let ghost regions = self.regions();
        let ghost with_held = regions.insert(cur.id, cur);
        let ghost ranges = self.region_ranges@;
        if held.is_leader() {
            // Notify pd immediately.
            push_task(
                tasks,
                Task::PdHeartbeat { region: held.region().clone(), peer: held.peer },
            );
        }
        let remove_self = match change_type {
            ConfChangeType::RemoveNode => peer.store_id == self.store_id(),
            ConfChangeType::AddNode => false,
        };
        // We only care remove itself now.
        if remove_self {
            // The remove peer is in the same store.
            let end_key = keys::enc_end_key(region);
            if self.is_recorded(&end_key, region.id) {
                let _ = self.region_ranges.remove(end_key.as_slice());
            }
            proof {
                lemma_remove_region(with_held, ranges, cur.id);
                assert(with_held.remove(cur.id) =~= regions);
            }
            true
        } else {
            proof {
                lemma_replace_same_range(with_held, ranges, region@);
                assert(with_held.insert(cur.id, region@) =~= regions.insert(
                    cur.id,
                    region@,
                ));
            }
            false
        }
    }

    /// Takes up a compaction: the entries before the new first position of
    /// the log are to be deleted.
    fn on_ready_compact_log(
        &mut self,
        held: &Peer<C>,
        state: &RaftTruncatedState,
        tasks: &mut Vec<Task>,
        refused: &mut Option<Error>,
        Ghost(cur): Ghost<RegionView>,
    )
        requires
            old(self).ready_for(held, cur, ExecResultView::CompactLog { state: *state }),
        ensures
            final(self).took_up(
                old(self),
                old(tasks)@,
                final(tasks)@,
                *old(refused),
                *final(refused),
                held,
                cur,
                ExecResultView::CompactLog { state: *state },
                false,
            ),
    {
        let compact_idx = if state.index == u64::MAX {
            u64::MAX
        } else {
            state.index + 1
        };
        push_task(tasks, Task::Compact { region_id: held.region_id, compact_idx });
    }

    /// Takes up a split: the record of the region moves to the split key,
    /// and the right half gets a peer of its own where the store can have
    /// one.
    fn on_ready_split_region(
        &mut self,
        held: &Peer<C>,
        left: &Region,
        right: &Region,
        tasks: &mut Vec<Task>,
        refused: &mut Option<Error>,
        Ghost(cur): Ghost<RegionView>,
    )
        requires
            old(self).ready_for(
                held,
                cur,
                ExecResultView::SplitRegion { left: left@, right: right@ },
            ),
        ensures
            final(self).took_up(
                old(self),
                old(tasks)@,
                final(tasks)@,
                *old(refused),
                *final(refused),
                held,
                cur,
                ExecResultView::SplitRegion { left: left@, right: right@ },
                false,
            ),
    {
        let ghost regions = self.regions();
        let ghost with_held = regions.insert(cur.id, cur);
        let ghost ranges = self.region_ranges@;
        let old_end = keys::enc_end_key(right);
        if !self.is_recorded(&old_end, left.id) {
            refuse(refused, Error::Other { reason: Reason::RegionNotRecorded });
            return ;
        }
        proof {
            lemma_shrink_region(with_held, ranges, left@, right@);
            assert(with_held.insert(left.id, left@) =~= regions.insert(left.id, left@));
        }
        let _ = self.region_ranges.remove(old_end.as_slice());
        let _ = self.region_ranges.insert(keys::enc_end_key(left), left.id);
        let ghost ranges1 = self.region_ranges@;
        let ghost regions1 = regions.insert(left.id, left@);

        let mut blocked = right.id == left.id;
        let mut placeholder: Option<usize> = None;
        if !blocked {
            if let Some(j) = self.peer_index(right.id) {
                proof {
                    lemma_peer_at(self.region_peers@, j as int);
                }
                // If the store received a raft msg with the new region raft group
                // before splitting, it will creates a uninitialized peer.
                // We can remove this uninitialized peer directly.
                let existing_end = keys::enc_end_key(&self.region_peers[j].store.region);
                if self.is_recorded(&existing_end, right.id) {
                    blocked = true;
                } else {
                    placeholder = Some(j);
                }
            }
        }
        if blocked {
            refuse(refused, Error::Other { reason: Reason::DuplicatedRegion });
            return ;
        }
        let storage = PeerStorage::fresh(right.clone());
        match Peer::create(self.store_id(), storage) {
            Err(e) => {
                refuse(refused, e);
            },
            Ok((mut new_peer, campaign)) => {
                proof {
                    util::lemma_peer_position(right@.peers, self.store.id);
                }
                if campaign {
                    push_task(tasks, Task::Campaign { region_id: right.id });
                }
                let is_leader = held.is_leader();
                // If the peer for the region before split is leader,
                // we can force the new peer for the new split region to campaign
                // to become the leader too.
                if is_leader && right.peers.len() > 1 {
                    push_task(tasks, Task::Campaign { region_id: right.id });
                }
                if is_leader {
                    // Notify pd immediately to let it update the region meta.
                    push_task(
                        tasks,
                        Task::PdHeartbeat {
                            region: held.region().clone(),
                            peer: held.peer,
                        },
                    );
                    push_task(
                        tasks,
                        Task::PdHeartbeat { region: right.clone(), peer: new_peer.peer },
                    );
                    // Now pd only uses ReportSplit for history operation show,
                    // so we send it independently here.
                    push_task(
                        tasks,
                        Task::PdReportSplit {
                            left: held.region().clone(),
                            right: right.clone(),
                        },
                    );
                }
                new_peer.size_diff_hint = self.cfg.region_check_size_diff;
                proof {
                    let spec_peer = spec_split_peer::<C>(
                        self.store.id,
                        right@,
                        self.cfg.region_check_size_diff,
                    );
                    assert(spec_peer is Some);
                    assert(new_peer@.raft_group.progress =~= Seq::empty());
                    assert(new_peer@.normals =~= Seq::empty());
                    assert(new_peer@.store == spec_peer->0.store);
                    assert(new_peer@.raft_group == spec_peer->0.raft_group);
                    assert(new_peer@ == spec_peer->0);
                }
                let ghost peers0 = self.region_peers@;
                if let Some(j) = placeholder {
                    proof {
                        lemma_take_peer(peers0, j as int);
                        lemma_regions_of(self.peers(), right.id, new_peer@);
                    }
                    let _ = self.region_peers.remove(j);
                }
                let ghost peers1 = self.region_peers@;
                proof {
                    lemma_put_peer(peers1, new_peer);
                    lemma_regions_of(peer_map(peers1), right.id, new_peer@);
                    let others = regions_of(peer_map(peers1));
                    assert(others =~= regions.remove(right.id));
                    // the half that stays takes the place of the whole
                    if regions1.contains_key(right.id) {
                        lemma_remove_region(regions1, ranges1, right.id);
                        assert(regions1.remove(right.id) =~= others.insert(
                            left.id,
                            left@,
                        ));
                    } else {
                        assert(regions1.remove(right.id) =~= regions1);
                        assert(regions1 =~= others.insert(left.id, left@));
                    }
                    lemma_insert_region(others.insert(left.id, left@), ranges1, right@, true);
                    assert(others.insert(left.id, left@).insert(right.id, right@)
                        =~= others.insert(right.id, right@).insert(left.id, left@));
                }
                let _ = self.region_ranges.insert(keys::enc_end_key(right), right.id);
                self.region_peers.push(new_peer);
                proof {
                    assert(self.peers() =~= old(self).peers().insert(right.id, new_peer@));
                    assert(tasks_view(tasks@) =~= tasks_view(old(tasks)@) + split_tasks(
                        held@,
                        right@,
                        new_peer@,
                    ));
                }
            },
        }
    }

    /// Takes up one result of a ready of the peer `held`, whose region was
    /// `cur` before the command of the result. `destroyed` tells whether an
    /// earlier result of the ready destroyed the peer.
    fn on_exec_result(
        &mut self,
        held: &Peer<C>,
        result: &ExecResult,
        tasks: &mut Vec<Task>,
        refused: &mut Option<Error>,
        destroyed: bool,
        Ghost(cur): Ghost<RegionView>,
    ) -> (now_destroyed: bool)
        requires
            !destroyed ==> old(self).ready_for(held, cur, result@),
            destroyed ==> old(self).wf(),
        ensures
            !destroyed ==> final(self).took_up(
                old(self),
                old(tasks)@,
                final(tasks)@,
                *old(refused),
                *final(refused),
                held,
                cur,
                result@,
                now_destroyed,
            ),
            destroyed ==> now_destroyed && *final(self) == *old(self) && final(tasks)@ == old(tasks)@ && *final(refused) == *old(refused),
    {
        if destroyed {
            return true;
        }
        match result {
            ExecResult::ChangePeer { change_type, peer, region } => {
                self.on_ready_change_peer(
                    held,
                    *change_type,
                    *peer,
                    region,
                    tasks,
                    refused,
                    Ghost(cur),
                )
            },
            ExecResult::CompactLog { state } => {
                self.on_ready_compact_log(held, state, tasks, refused, Ghost(cur));
                false
            },
            ExecResult::SplitRegion { left, right } => {
                self.on_ready_split_region(held, left, right, tasks, refused, Ghost(cur));
                false
            },
        }
    }
}

/// Whether the range of `region` holds a key.
pub fn range_is_valid(region: &Region) -> (r: bool)
    ensures
        r == valid_range(region@),
{
    region.end_key.len() == 0 || bytes_lt(region.start_key.as_slice(), region.end_key.as_slice())
}

/// The tasks with which the results of a ready start: a snapshot that was
/// taken in is handed on to be applied.
pub open spec fn snapshot_tasks(region_id: u64, change: Option<(RegionView, RegionView)>) -> Seq<
    TaskView,
> {
    match change {
        Some(_) => seq![TaskView::SnapApply { region_id }],
        None => Seq::empty(),
    }
}

impl<C> Store<C> {
    /// Takes up the results of a ready of the peer `held`, first to last.
    /// `start` is the region of the peer before the first of the commands.
    fn on_ready_result(
        &mut self,
        held: &Peer<C>,
        results: &Vec<ExecResult>,
        tasks: &mut Vec<Task>,
        refused: &mut Option<Error>,
        Ghost(start): Ghost<RegionView>,
    ) -> (destroyed: bool)
        requires
            held.wf(),
            old(self).wf_holding(start),
            start.id == held.region_id,
            results@.len() > 0 ==> registered(
                old(self).regions().insert(start.id, start),
                old(self).region_ranges@,
                start.id,
            ),
            results_follow(start, exec_results_view(results@)),
            region_after_all(start, exec_results_view(results@)) == held@.store.region,
        ensures
            ({
                let s0 = ResultsModel {
                    peers: old(self).peers(),
                    ranges: old(self).region_ranges@,
                    tasks: tasks_view(old(tasks)@),
                    destroyed: false,
                    refused: error_view(*old(refused)),
                };
                let s1 = spec_on_exec_results(
                    s0,
                    old(self).store.id,
                    old(self).cfg.region_check_size_diff,
                    held@,
                    exec_results_view(results@),
                );
                &&& final(self).peers() == s1.peers
                &&& final(self).region_ranges@ == s1.ranges
                &&& tasks_view(final(tasks)@) == s1.tasks
                &&& error_view(*final(refused)) == s1.refused
                &&& destroyed == s1.destroyed
            }),
            !destroyed ==> final(self).wf_holding(held@.store.region),
            destroyed ==> final(self).wf(),
            final(self).cfg == old(self).cfg,
            final(self).store == old(self).store,
            final(self).peer_cache == old(self).peer_cache,
            final(self).pending_raft_groups == old(self).pending_raft_groups,
    {
        let ghost all = exec_results_view(results@);
        let ghost s0 = ResultsModel {
            peers: self.peers(),
            ranges: self.region_ranges@,
            tasks: tasks_view(tasks@),
            destroyed: false,
            refused: error_view(*refused),
        };
        let ghost store_id = self.store.id;
        let ghost hint = self.cfg.region_check_size_diff;
        let ghost mut cur = start;
        let mut destroyed = false;
        let mut k: usize = 0;
        proof {
            assert(all.subrange(0, 0) =~= Seq::<ExecResultView>::empty());
        }
        while k < results.len()
            invariant
                k <= results@.len(),
                held.wf(),
                all == exec_results_view(results@),
                results_follow(start, all),
                start.id == held.region_id,
                store_id == self.store.id,
                hint == self.cfg.region_check_size_diff,
                cur == region_after_all(start, all.subrange(0, k as int)),
                ({
                    let s = spec_on_exec_results(s0, store_id, hint, held@, all.subrange(0, k as int));
                    &&& self.peers() == s.peers
                    &&& self.region_ranges@ == s.ranges
                    &&& tasks_view(tasks@) == s.tasks
                    &&& error_view(*refused) == s.refused
                    &&& destroyed == s.destroyed
                }),
                !destroyed ==> self.wf_holding(cur) && cur.id == held.region_id && (results@.len()
                    > 0 ==> registered(
                    self.regions().insert(cur.id, cur),
                    self.region_ranges@,
                    cur.id,
                )),
                destroyed ==> self.wf(),
                self.cfg == old(self).cfg,
                self.store == old(self).store,
                self.peer_cache == old(self).peer_cache,
                self.pending_raft_groups == old(self).pending_raft_groups,
            decreases results@.len() - k,
        {
            proof {
                lemma_results_follow_at(start, all, k as int);
                assert(all.subrange(0, k + 1).drop_last() =~= all.subrange(0, k as int));
                assert(all.subrange(0, k + 1).last() == results@[k as int]@);
            }
            destroyed = self.on_exec_result(held, &results[k], tasks, refused, destroyed, Ghost(cur));
            proof {
                cur = region_after(cur, Some(results@[k as int]@));
            }
            k += 1;
        }
        proof {
            assert(all.subrange(0, k as int) =~= all);
        }
        destroyed
    }

    /// Handles a ready of the consensus layer of the peer of region
    /// `region_id`: the peer handles the ready, and the store takes up the
    /// results. `snap` is the engine as the first committed entry meets it.
    ///
    /// Returns `None` if the store has no peer of the region. A split that
    /// the peer applied and the store cannot take up, because the store
    /// already holds a region with the id of the right half, or the right
    /// half has no peer with a valid id on this store, is reported in
    /// `refused`: the store cannot go on after it.
    pub fn on_raft_ready(&mut self, region_id: u64, snap: &mut Snapshot, ready: &Ready) -> (r:
        Result<Option<StoreReady<C>>, Error>)
        requires
            old(self).wf(),
            old(snap).wf(),
        ensures
            final(self).wf(),
            final(snap).wf(),
            final(self).cfg == old(self).cfg,
            final(self).store == old(self).store,
            final(self).pending_raft_groups == old(self).pending_raft_groups,
            !old(self).peers().contains_key(region_id) ==> (r matches Ok(None) && final(self).peers() == old(self).peers() && final(self).region_ranges@ == old(self).region_ranges@ && final(snap)@ == old(snap)@ && final(self).peer_cache@ == old(self).peer_cache@),
            old(self).peers().contains_key(region_id) ==> match spec_ready_guard(
                old(self).regions(),
                old(self).region_ranges@,
                old(self).peers()[region_id],
                ready,
            ) {
                Some(e) => r matches Err(err) && err@ == e && final(self).peers() == old(self).peers() && final(self).region_ranges@ == old(self).region_ranges@ && final(snap)@ == old(snap)@ && final(self).peer_cache@ == old(self).peer_cache@,
                None => match spec_handle_ready(
                    old(self).peers()[region_id],
                    old(self).peer_cache@,
                    old(snap)@,
                    ready,
                ) {
                    Err(e) => r matches Err(err) && err@ == e && final(self).peers() == old(self).peers() && final(self).region_ranges@ == old(self).region_ranges@
                        && final(snap)@ == old(snap)@,
                    Ok(out) => r matches Ok(Some(done)) && {
                        let s0 = ResultsModel {
                            peers: old(self).peers().remove(region_id),
                            ranges: ranges_after_snapshot(
                                old(self).region_ranges@,
                                region_id,
                                out.apply_snap_result,
                            ),
                            tasks: snapshot_tasks(region_id, out.apply_snap_result),
                            destroyed: false,
                            refused: None,
                        };
                        let s1 = spec_on_exec_results(
                            s0,
                            old(self).store.id,
                            old(self).cfg.region_check_size_diff,
                            out.peer,
                            out.exec_results,
                        );
                        &&& final(snap)@ == out.snap
                        &&& final(self).peer_cache@ == out.cache
                        &&& final(self).region_ranges@ == s1.ranges
                        &&& tasks_view(done.tasks@) == s1.tasks
                        &&& final(self).peers() == if s1.destroyed {
                            s1.peers
                        } else {
                            s1.peers.insert(region_id, out.peer)
                        }
                        &&& destroyed_view(done.destroyed) == if s1.destroyed {
                            Some(spec_destroyed(out.peer, final(snap).keys(CfName::Default)))
                        } else {
                            None
                        }
                        &&& error_view(done.refused) == s1.refused
                        &&& error_view(done.ready.refused) == out.refused
                        &&& envelopes_view(done.ready.messages@) == out.messages
                        &&& done.ready.send_before_persist == out.send_before_persist
                        &&& done.ready.persist@ == out.persist
                        &&& batches_view(done.ready.write_batches@) == out.batches
                        &&& notifications_view(done.ready.notifications@) == out.notifications
                        &&& done.ready.conf_changes@ == out.conf_changes
                        &&& exec_results_view(done.ready.result.exec_results@) == out.exec_results
                        &&& done.ready.keep_hard_state == out.keep_hard_state
                    },
                },
            },
    {
        let idx = match self.peer_index(region_id) {
            None => {
                return Ok(None);
            },
            Some(i) => i,
        };
        proof {
            lemma_peer_at(self.region_peers@, idx as int);
        }
        let applying = self.region_peers[idx].is_applying_snap();
        if !applying {
            match &ready.snapshot {
                Some(s) => {
                    if s.region.id != region_id || !range_is_valid(&s.region)
                        || self.overlaps_other(&s.region) {
                        return Err(Error::Other { reason: Reason::RegionRejected });
                    }
                },
                None => {
                    if ready.committed_entries.len() > 0 {
                        let end = keys::enc_end_key(&self.region_peers[idx].store.region);
                        if !self.is_recorded(&end, region_id) {
                            return Err(Error::Other { reason: Reason::RegionNotRecorded });
                        }
                    }
                },
            }
        }
        let ghost regions0 = self.regions();
        let ghost ranges0 = self.region_ranges@;
        let ghost cache0 = self.peer_cache@;
        let ghost snap0 = snap@;
        let mut peer = self.take_peer(idx);
        let ghost m = peer@;
        let ghost others = self.regions();
        proof {
            assert(others.insert(region_id, m.store.region) =~= regions0);
            assert(!others.contains_key(region_id));
        }
        let out = match peer.handle_raft_ready(&mut self.peer_cache, snap, ready) {
            Err(e) => {
                self.put_peer(peer);
                proof {
                    assert(self.peers() =~= old(self).peers());
                }
                return Err(e);
            },
            Ok(out) => out,
        };
        let ghost spec_out = spec_handle_ready(m, cache0, snap0, ready)->Ok_0;
        let ghost start = match spec_out.apply_snap_result {
            Some((_, region)) => region,
            None => m.store.region,
        };
        proof {
            // what the peer did, step by step
            let snapshot = if applying {
                None
            } else {
                ready.snapshot
            };
            let hs = if applying {
                None
            } else {
                ready.hs
            };
            let committed = if applying {
                Seq::empty()
            } else {
                ready.committed_entries@
            };
            let env = spec_envelopes(m, cache0, messages_view(ready.messages@))->Ok_0;
            let st = spec_storage_ready(m.store, m.store.region.id, snapshot, ready.entries@, hs)->Ok_0;
            let m1 = PeerView { store: st.0, ..m };
            lemma_entries_results_follow(m1, env.1, snap0, committed);
            assert(st.0.region == start);
            if committed.len() == 0 {
                lemma_no_entries_no_results(m1, env.1, snap0);
            }
        }
        let mut tasks: Vec<Task> = Vec::new();
        proof {
            assert(tasks_view(tasks@) =~= Seq::<TaskView>::empty());
        }
        if let Some(res) = &out.result.apply_snap_result {
            let prev_end = keys::enc_end_key(&res.prev_region);
            proof {
                lemma_remove_region(regions0, ranges0, region_id);
                assert(regions0.remove(region_id) =~= others);
            }
            // we have already initialized the peer, so it must exist in region_ranges.
            if self.is_recorded(&prev_end, region_id) {
                let _ = self.region_ranges.remove(prev_end.as_slice());
            }
            proof {
                lemma_insert_region(others, self.region_ranges@, res.region@, true);
            }
            let _ = self.region_ranges.insert(keys::enc_end_key(&res.region), region_id);
            push_task(&mut tasks, Task::SnapApply { region_id });
        }
        let mut refused: Option<Error> = None;
        let destroyed = self.on_ready_result(
            &peer,
            &out.result.exec_results,
            &mut tasks,
            &mut refused,
            Ghost(start),
        );
        let destroyed = if destroyed {
            Some(peer.destroy(snap))
        } else {
            self.put_peer(peer);
            None
        };
        Ok(Some(StoreReady { ready: out, tasks, destroyed, refused }))
    }
}

} // verus!
