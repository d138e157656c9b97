//! The store: the peers of one node, the record of where their regions
//! end, and what the store does when a peer's consensus layer is ready.

use crate::proto::metapb;
use crate::proto::metapb::{Region, RegionView};
use crate::proto::raftpb::ConfChangeType;
use crate::raftstore::errors::{Error, ErrorKind, Reason};
use crate::raftstore::store::config::{valid_config, Config};
use crate::raftstore::store::keys;
use crate::raftstore::store::peer::{
    ExecResultView, Peer, PeerCache, PeerView, RaftStatusView, StateRole, StorageView,
};
use crate::raftstore::store::peer_storage::{
    spec_initial_apply_state, spec_initial_raft_state, SnapState, RAFT_INIT_LOG_TERM,
};
use crate::raftstore::store::region_ranges::{
    disjoint, enc_end, enc_start, overlaps_other, ranges_consistent,
};
use crate::raftstore::store::task::TaskView;
use crate::raftstore::store::util::spec_find_peer;
use crate::util::codec::order::bytes_le;
use crate::util::sorted_map::{index_of, lemma_sorted_lookup, SortedMap};
use std::collections::HashMap;
use vstd::prelude::*;

verus! {

broadcast use vstd::std_specs::hash::group_hash_axioms;

/// The peers of one node and what the node keeps about them. `C` is the
/// type of the callbacks that resolve clients.
pub struct Store<C> {
    pub cfg: Config,
    pub store: metapb::Store,
    /// The peers, one for each region that the store has a part in.
    pub region_peers: Vec<Peer<C>>,
    /// The regions whose consensus layer may have something ready.
    pub pending_raft_groups: Vec<u64>,
    // region end key -> region id
    pub region_ranges: SortedMap<u64>,
    pub peer_cache: PeerCache,
}

/// Whether one of `peers` is the peer of region `id`.
pub open spec fn has_region<C>(peers: Seq<Peer<C>>, id: u64) -> bool {
    exists|i: int| 0 <= i < peers.len() && (#[trigger] peers[i]).region_id == id
}

/// The place of the peer of region `id`, where there is one.
pub open spec fn region_index<C>(peers: Seq<Peer<C>>, id: u64) -> int {
    choose|i: int| 0 <= i < peers.len() && (#[trigger] peers[i]).region_id == id
}

/// Whether no two of `peers` are of the same region.
pub open spec fn ids_distinct<C>(peers: Seq<Peer<C>>) -> bool {
    forall|i: int, j: int|
        0 <= i < j < peers.len() ==> (#[trigger] peers[i]).region_id != (
        #[trigger] peers[j]).region_id
}

/// Whether each of `peers` is well formed.
pub open spec fn all_wf<C>(peers: Seq<Peer<C>>) -> bool {
    forall|i: int| 0 <= i < peers.len() ==> (#[trigger] peers[i]).wf()
}

/// The peers by the id of their region.
pub open spec fn peer_map<C>(peers: Seq<Peer<C>>) -> Map<u64, PeerView<C>> {
    Map::new(|id: u64| has_region(peers, id), |id: u64| peers[region_index(peers, id)]@)
}

/// The regions of a map of peers.
pub open spec fn regions_of<C>(m: Map<u64, PeerView<C>>) -> Map<u64, RegionView> {
    Map::new(|id: u64| m.contains_key(id), |id: u64| m[id].store.region)
}

/// Among peers of distinct regions, the peer at place `i` is the peer of
/// its region.
pub proof fn lemma_peer_at<C>(peers: Seq<Peer<C>>, i: int)
    requires
        ids_distinct(peers),
        0 <= i < peers.len(),
    ensures
        has_region(peers, peers[i].region_id),
        region_index(peers, peers[i].region_id) == i,
        peer_map(peers).contains_key(peers[i].region_id),
        peer_map(peers)[peers[i].region_id] == peers[i]@,
{
    let id = peers[i].region_id;
    let j = region_index(peers, id);
    if j < i {
        assert(peers[j].region_id != peers[i].region_id);
    } else if i < j {
        assert(peers[i].region_id != peers[j].region_id);
    }
}

/// Taking the peer at place `i` out takes its region out of the map, and
/// nothing else.
pub proof fn lemma_take_peer<C>(peers: Seq<Peer<C>>, i: int)
    requires
        ids_distinct(peers),
        all_wf(peers),
        0 <= i < peers.len(),
    ensures
        ids_distinct(peers.remove(i)),
        all_wf(peers.remove(i)),
        !has_region(peers.remove(i), peers[i].region_id),
        peer_map(peers.remove(i)) == peer_map(peers).remove(peers[i].region_id),
{
    let after = peers.remove(i);
    let id = peers[i].region_id;
    assert forall|a: int, b: int| 0 <= a < b < after.len() implies (#[trigger] after[a]).region_id
        != (#[trigger] after[b]).region_id by {
        let pa = if a < i { a } else { a + 1 };
        let pb = if b < i { b } else { b + 1 };
        assert(after[a] == peers[pa] && after[b] == peers[pb]);
    }
    assert forall|a: int| 0 <= a < after.len() implies (#[trigger] after[a]).wf() by {
        let pa = if a < i { a } else { a + 1 };
        assert(after[a] == peers[pa]);
    }
    if has_region(after, id) {
        let a = region_index(after, id);
        let pa = if a < i { a } else { a + 1 };
        assert(after[a] == peers[pa]);
        if pa < i {
            assert(peers[pa].region_id != peers[i].region_id);
        } else {
            assert(peers[i].region_id != peers[pa].region_id);
        }
    }
    assert forall|k: u64| peer_map(after).contains_key(k) <==> peer_map(peers).remove(
        id,
    ).contains_key(k) by {
        if has_region(after, k) {
            let a = region_index(after, k);
            let pa = if a < i { a } else { a + 1 };
            assert(after[a] == peers[pa]);
            assert(peers[pa].region_id == k);
        }
        if has_region(peers, k) && k != id {
            let p = region_index(peers, k);
            let a = if p < i { p } else { p - 1 };
            assert(after[a] == peers[p]);
            assert(after[a].region_id == k);
        }
    }
    assert forall|k: u64| peer_map(after).contains_key(k) implies peer_map(after)[k] == peer_map(
        peers,
    ).remove(id)[k] by {
        let a = region_index(after, k);
        let pa = if a < i { a } else { a + 1 };
        assert(after[a] == peers[pa]);
        lemma_peer_at(peers, pa);
    }
    assert(peer_map(after) =~= peer_map(peers).remove(id));
}

/// Adding a peer of a region that has none adds its region to the map, and
/// nothing else.
pub proof fn lemma_put_peer<C>(peers: Seq<Peer<C>>, p: Peer<C>)
    requires
        ids_distinct(peers),
        all_wf(peers),
        p.wf(),
        !has_region(peers, p.region_id),
    ensures
        ids_distinct(peers.push(p)),
        all_wf(peers.push(p)),
        peer_map(peers.push(p)) == peer_map(peers).insert(p.region_id, p@),
{
    let after = peers.push(p);
    assert forall|a: int, b: int| 0 <= a < b < after.len() implies (#[trigger] after[a]).region_id
        != (#[trigger] after[b]).region_id by {
        assert(after[a] == peers[a]);
        if b < peers.len() {
            assert(after[b] == peers[b]);
        }
    }
    assert forall|k: u64| peer_map(after).contains_key(k) <==> peer_map(peers).insert(
        p.region_id,
        p@,
    ).contains_key(k) by {
        if has_region(after, k) {
            let a = region_index(after, k);
            if a < peers.len() {
                assert(peers[a].region_id == k);
            }
        }
        if has_region(peers, k) {
            let a = region_index(peers, k);
            assert(after[a].region_id == k);
        }
        if k == p.region_id {
            assert(after[peers.len() as int].region_id == k);
        }
    }
    assert forall|k: u64| peer_map(after).contains_key(k) implies peer_map(after)[k] == peer_map(
        peers,
    ).insert(p.region_id, p@)[k] by {
        let a = region_index(after, k);
        if a < peers.len() {
            assert(after[a] == peers[a]);
            lemma_peer_at(peers, a);
        }
    }
    assert(peer_map(after) =~= peer_map(peers).insert(p.region_id, p@));
}

/// Putting another peer of the same region in the place of a peer puts it
/// in the map under the region's id, and nothing else changes.
pub proof fn lemma_update_peer<C>(peers: Seq<Peer<C>>, i: int, p: Peer<C>)
    requires
        ids_distinct(peers),
        all_wf(peers),
        0 <= i < peers.len(),
        p.wf(),
        p.region_id == peers[i].region_id,
    ensures
        ids_distinct(peers.update(i, p)),
        all_wf(peers.update(i, p)),
        peer_map(peers.update(i, p)) == peer_map(peers).insert(p.region_id, p@),
        peers.remove(i).insert(i, p) == peers.update(i, p),
{
    let after = peers.update(i, p);
    assert(peers.remove(i).insert(i, p) =~= after);
    assert forall|a: int, b: int| 0 <= a < b < after.len() implies (#[trigger] after[a]).region_id
        != (#[trigger] after[b]).region_id by {
        assert(after[a].region_id == peers[a].region_id);
        assert(after[b].region_id == peers[b].region_id);
    }
    assert forall|k: u64| peer_map(after).contains_key(k) <==> peer_map(peers).insert(
        p.region_id,
        p@,
    ).contains_key(k) by {
        if has_region(after, k) {
            let a = region_index(after, k);
            assert(peers[a].region_id == k);
        }
        if has_region(peers, k) {
            let a = region_index(peers, k);
            assert(after[a].region_id == k);
        }
        if k == p.region_id {
            assert(after[i].region_id == k);
        }
    }
    assert forall|k: u64| peer_map(after).contains_key(k) implies peer_map(after)[k] == peer_map(
        peers,
    ).insert(p.region_id, p@)[k] by {
        let a = region_index(after, k);
        lemma_peer_at(after, a);
        if a != i {
            assert(after[a] == peers[a]);
            lemma_peer_at(peers, a);
        }
    }
    assert(peer_map(after) =~= peer_map(peers).insert(p.region_id, p@));
}

/// The regions of a map with one peer more, or one less.
pub proof fn lemma_regions_of<C>(m: Map<u64, PeerView<C>>, id: u64, p: PeerView<C>)
    ensures
        regions_of(m.insert(id, p)) == regions_of(m).insert(id, p.store.region),
        regions_of(m.remove(id)) == regions_of(m).remove(id),
{
    assert(regions_of(m.insert(id, p)) =~= regions_of(m).insert(id, p.store.region));
    assert(regions_of(m.remove(id)) =~= regions_of(m).remove(id));
}

/// The pending regions with `id` among them: behind the others, if it was
/// not.
pub open spec fn pending_insert(pending: Seq<u64>, id: u64) -> Seq<u64> {
    if pending.contains(id) {
        pending
    } else {
        pending.push(id)
    }
}

/// The peer that a split creates on store `store_id` for the right half
/// `right`, if the half has a peer with a valid id on the store.
pub open spec fn spec_split_peer<C>(store_id: u64, right: RegionView, hint: u64) -> Option<
    PeerView<C>,
> {
    match spec_find_peer(right.peers, store_id) {
        None => None,
        Some(p) => if p.id == 0 {
            None
        } else {
            Some(
                PeerView {
                    peer: metapb::Peer { id: p.id, store_id },
                    region_id: right.id,
                    raft_group: RaftStatusView {
                        term: RAFT_INIT_LOG_TERM,
                        leader_id: 0,
                        role: StateRole::Follower,
                        pending_conf: false,
                        progress: Seq::empty(),
                    },
                    store: StorageView {
                        region: right,
                        raft_state: spec_initial_raft_state(),
                        apply_state: spec_initial_apply_state(),
                        snap_state: SnapState::Relax,
                    },
                    normals: Seq::empty(),
                    conf_change: None,
                    size_diff_hint: hint,
                    pending_remove: false,
                },
            )
        },
    }
}

/// What a store is while it works through the results of a ready: the
/// other peers, the record of where regions end, the tasks so far, and
/// whether the peer of the ready has been destroyed.
pub struct ResultsModel<C> {
    pub peers: Map<u64, PeerView<C>>,
    pub ranges: Map<Seq<u8>, u64>,
    pub tasks: Seq<TaskView>,
    pub destroyed: bool,
    /// Why the first result that the store could not take up was refused.
    pub refused: Option<ErrorKind>,
}

/// The refusal `e`, unless there was one before.
pub open spec fn first_refusal(before: Option<ErrorKind>, e: ErrorKind) -> Option<ErrorKind> {
    if before is Some {
        before
    } else {
        Some(e)
    }
}

/// Why a split cannot create a peer for the right half `right` on store
/// `store_id`, where it cannot.
pub open spec fn spec_split_peer_refusal(store_id: u64, right: RegionView) -> ErrorKind {
    match spec_find_peer(right.peers, store_id) {
        None => ErrorKind::Other { reason: Reason::NoPeerOnStore },
        Some(_) => ErrorKind::Other { reason: Reason::InvalidPeerId },
    }
}

/// The tasks after a split that created `new_peer` for the right half.
pub open spec fn split_tasks<C>(held: PeerView<C>, right: RegionView, new_peer: PeerView<C>) -> Seq<
    TaskView,
> {
    let leader = held.raft_group.role == StateRole::Leader;
    // a region of one peer stands for election as soon as it exists.
    (if right.peers.len() == 1 {
        seq![TaskView::Campaign { region_id: right.id }]
    } else {
        Seq::empty()
    }) + (
    // If the peer for the region before split is leader,
    // we can force the new peer for the new split region to campaign
    // to become the leader too.
    if leader && right.peers.len() > 1 {
        seq![TaskView::Campaign { region_id: right.id }]
    } else {
        Seq::empty()
    }) + (
    // Notify pd immediately to let it update the region meta.
    if leader {
        seq![
            TaskView::PdHeartbeat { region: held.store.region, peer: held.peer },
            TaskView::PdHeartbeat { region: right, peer: new_peer.peer },
            TaskView::PdReportSplit { left: held.store.region, right },
        ]
    } else {
        Seq::empty()
    })
}

/// The position behind `index`, or the last position there is.
pub open spec fn next_index(index: u64) -> u64 {
    if index == u64::MAX {
        u64::MAX
    } else {
        (index + 1) as u64
    }
}

/// What a store does with one result of a ready of the peer `held`.
///
/// After a change of membership a leader reports to the placement driver;
/// if the change removed the peer on this store, the peer is destroyed,
/// and the results behind are not looked at. After a compaction the
/// entries before the new first position are deleted. After a split the
/// record of the region moves to the split key, and the right half gets a
/// peer of its own, recorded under the region's old end.
///
/// A split is refused, and the right half left without peer, record and
/// task, where the store cannot take it up: with `RegionNotRecorded` if the
/// store has no record of the region that was split, which then keeps
/// nothing of the split; with `DuplicatedRegion` if the right half has the
/// id of the left, or of a region that the store already records; with
/// `NoPeerOnStore` or `InvalidPeerId` if the right half has no peer with a
/// valid id on this store. The store cannot go on after a refusal: what
/// the peer applied is already decided.
pub open spec fn spec_on_exec_result<C>(
    s: ResultsModel<C>,
    store_id: u64,
    hint: u64,
    held: PeerView<C>,
    res: ExecResultView,
) -> ResultsModel<C> {
    if s.destroyed {
        s
    } else {
        let leader = held.raft_group.role == StateRole::Leader;
        match res {
            ExecResultView::ChangePeer { change_type, peer, region } => {
                let tasks = if leader {
                    s.tasks.push(TaskView::PdHeartbeat { region: held.store.region, peer: held.peer })
                } else {
                    s.tasks
                };
                // We only care remove itself now.
                if change_type == ConfChangeType::RemoveNode && peer.store_id == store_id {
                    ResultsModel {
                        tasks,
                        destroyed: true,
                        ranges: if s.ranges.contains_key(enc_end(region)) && s.ranges[enc_end(
                            region,
                        )] == region.id {
                            s.ranges.remove(enc_end(region))
                        } else {
                            s.ranges
                        },
                        ..s
                    }
                } else {
                    ResultsModel { tasks, ..s }
                }
            },
            ExecResultView::CompactLog { state } => ResultsModel {
                tasks: s.tasks.push(
                    TaskView::Compact {
                        region_id: held.region_id,
                        compact_idx: next_index(state.index),
                    },
                ),
                ..s
            },
            ExecResultView::SplitRegion { left, right } => {
                let old_end = enc_end(right);
                if !(s.ranges.contains_key(old_end) && s.ranges[old_end] == left.id) {
                    ResultsModel {
                        refused: first_refusal(
                            s.refused,
                            ErrorKind::Other { reason: Reason::RegionNotRecorded },
                        ),
                        ..s
                    }
                } else {
                    let ranges = s.ranges.remove(old_end).insert(enc_end(left), left.id);
                    let blocked = right.id == left.id || (s.peers.contains_key(right.id)
                        && ranges.contains_key(enc_end(s.peers[right.id].store.region))
                        && ranges[enc_end(s.peers[right.id].store.region)] == right.id);
                    if blocked {
                        ResultsModel {
                            ranges,
                            refused: first_refusal(
                                s.refused,
                                ErrorKind::Other { reason: Reason::DuplicatedRegion },
                            ),
                            ..s
                        }
                    } else {
                        match spec_split_peer::<C>(store_id, right, hint) {
                            None => ResultsModel {
                                ranges,
                                refused: first_refusal(
                                    s.refused,
                                    spec_split_peer_refusal(store_id, right),
                                ),
                                ..s
                            },
                            Some(new_peer) => ResultsModel {
                                peers: s.peers.insert(right.id, new_peer),
                                ranges: ranges.insert(enc_end(right), right.id),
                                tasks: s.tasks + split_tasks(held, right, new_peer),
                                ..s
                            },
                        }
                    }
                }
            },
        }
    }
}

/// What a store does with the results of a ready, first to last.
pub open spec fn spec_on_exec_results<C>(
    s: ResultsModel<C>,
    store_id: u64,
    hint: u64,
    held: PeerView<C>,
    results: Seq<ExecResultView>,
) -> ResultsModel<C>
    decreases results.len(),
{
    if results.len() == 0 {
        s
    } else {
        spec_on_exec_result(
            spec_on_exec_results(s, store_id, hint, held, results.drop_last()),
            store_id,
            hint,
            held,
            results.last(),
        )
    }
}

impl<C> Store<C> {
    /// The peers by the id of their region.
    pub open spec fn peers(&self) -> Map<u64, PeerView<C>> {
        peer_map(self.region_peers@)
    }

    /// The regions by their id.
    pub open spec fn regions(&self) -> Map<u64, RegionView> {
        regions_of(self.peers())
    }

    /// The representation invariant: every peer is well formed, no region
    /// has two peers, and the record of where regions end agrees with the
    /// regions.
    pub open spec fn wf(&self) -> bool {
        &&& all_wf(self.region_peers@)
        &&& ids_distinct(self.region_peers@)
        &&& self.region_ranges.wf()
        &&& ranges_consistent(self.regions(), self.region_ranges@)
    }

    /// The invariant while one peer is held aside, its region being `r`.
    pub open spec fn wf_holding(&self, r: RegionView) -> bool {
        &&& all_wf(self.region_peers@)
        &&& ids_distinct(self.region_peers@)
        &&& self.region_ranges.wf()
        &&& !has_region(self.region_peers@, r.id)
        &&& ranges_consistent(self.regions().insert(r.id, r), self.region_ranges@)
    }

    /// A store without peers. Fails if the store cannot run with the
    /// settings.
    pub fn new(meta: metapb::Store, cfg: Config) -> (r: Result<Store<C>, Error>)
        ensures
            r is Ok <==> valid_config(cfg),
            r matches Err(e) ==> e == (Error::Other { reason: Reason::InvalidConfig }),
            r matches Ok(s) ==> s.wf() && s.cfg == cfg && s.store == meta && s.region_peers@.len()
                == 0 && s.pending_raft_groups@.len() == 0 && s.region_ranges@ == Map::<
                Seq<u8>,
                u64,
            >::empty() && s.peer_cache@ == Map::<u64, metapb::Peer>::empty(),
    {
        match cfg.validate() {
            Err(e) => {
                return Err(e);
            },
            Ok(()) => {},
        }
        let s = Store {
            cfg,
            store: meta,
            region_peers: Vec::new(),
            pending_raft_groups: Vec::new(),
            region_ranges: SortedMap::new(),
            peer_cache: HashMap::new(),
        };
        assert(s.regions() =~= Map::<u64, RegionView>::empty());
        Ok(s)
    }

    pub fn store_id(&self) -> (id: u64)
        ensures
            id == self.store.id,
    {
        self.store.id
    }

    pub fn config(&self) -> (cfg: &Config)
        ensures
            *cfg == self.cfg,
    {
        &self.cfg
    }

    pub fn peer_cache(&self) -> (cache: &PeerCache)
        ensures
            cache == &self.peer_cache,
    {
        &self.peer_cache
    }

    /// Puts `peer` into the cache under its id.
    pub fn insert_peer_cache(&mut self, peer: metapb::Peer)
        ensures
            final(self).peer_cache@ == old(self).peer_cache@.insert(peer.id, peer),
            final(self).cfg == old(self).cfg,
            final(self).store == old(self).store,
            final(self).region_peers == old(self).region_peers,
            final(self).pending_raft_groups == old(self).pending_raft_groups,
            final(self).region_ranges == old(self).region_ranges,
    {
        self.peer_cache.insert(peer.id, peer);
    }

    /// The place of the peer of region `region_id`, if the store has one.
    pub fn peer_index(&self, region_id: u64) -> (r: Option<usize>)
        ensures
            match r {
                Some(i) => i < self.region_peers@.len() && self.region_peers@[i as int].region_id
                    == region_id,
                None => !has_region(self.region_peers@, region_id),
            },
    {
        let mut i: usize = 0;
        while i < self.region_peers.len()
            invariant
                i <= self.region_peers@.len(),
                forall|k: int| 0 <= k < i ==> (#[trigger] self.region_peers@[k]).region_id != region_id,
            decreases self.region_peers@.len() - i,
        {
            if self.region_peers[i].region_id == region_id {
                return Some(i);
            }
            i += 1;
        }
        None
    }

    /// The peer of region `region_id`, if the store has one.
    pub fn get_peer(&self, region_id: u64) -> (r: Option<&Peer<C>>)
        requires
            self.wf(),
        ensures
            match r {
                Some(p) => self.peers().contains_key(region_id) && p@ == self.peers()[region_id]
                    && p.wf() && p.region_id == region_id,
                None => !self.peers().contains_key(region_id),
            },
    {
        match self.peer_index(region_id) {
            Some(i) => {
                proof {
                    lemma_peer_at(self.region_peers@, i as int);
                }
                Some(&self.region_peers[i])
            },
            None => None,
        }
    }

    /// Whether the store has recorded where region `region_id`, which
    /// ends at `end_key`, ends.
    pub(crate) fn is_recorded(&self, end_key: &Vec<u8>, region_id: u64) -> (r: bool)
        requires
            self.region_ranges.wf(),
        ensures
            r == (self.region_ranges@.contains_key(end_key@) && self.region_ranges@[end_key@]
                == region_id),
    {
        match self.region_ranges.get(end_key.as_slice()) {
            Some(id) => *id == region_id,
            None => false,
        }
    }

    /// Whether some recorded region of the store other than `region`
    /// itself overlaps the range of `region`.
    pub fn overlaps_other(&self, region: &Region) -> (r: bool)
        requires
            self.wf(),
        ensures
            r == overlaps_other(self.regions(), self.region_ranges@, region@),
    {
        let start = keys::enc_start_key(region);
        let end = keys::enc_end_key(region);
        let n = self.region_ranges.len();
        let ghost pairs = self.region_ranges.pairs();
        let ghost regions = self.regions();
        let ghost ranges = self.region_ranges@;
        let mut i: usize = 0;
        while i < n
            invariant
                self.wf(),
                i <= n,
                n == pairs.len(),
                pairs == self.region_ranges.pairs(),
                regions == self.regions(),
                ranges == self.region_ranges@,
                start@ == enc_start(region@),
                end@ == enc_end(region@),
                forall|k: int|
                    0 <= k < i ==> !(ranges[(#[trigger] pairs[k]).0] != region.id && !disjoint(
                        regions[ranges[pairs[k].0]],
                        region@,
                    )),
            decreases n - i,
        {
            let key = self.region_ranges.key_at(i);
            let id = *self.region_ranges.value_at(i);
            proof {
                lemma_sorted_lookup(pairs, i as int);
                assert(ranges.contains_key(pairs[i as int].0));
                assert(regions.contains_key(id));
            }
            if id != region.id {
                match self.peer_index(id) {
                    None => {
                        assert(false);
                    },
                    Some(j) => {
                        proof {
                            lemma_peer_at(self.region_peers@, j as int);
                        }
                        let other = &self.region_peers[j].store.region;
                        let other_start = keys::enc_start_key(other);
                        if !(bytes_le(key.as_slice(), start.as_slice()) || bytes_le(
                            end.as_slice(),
                            other_start.as_slice(),
                        )) {
                            return true;
                        }
                    },
                }
            }
            i += 1;
        }
        proof {
            if overlaps_other(regions, ranges, region@) {
                let k = choose|k: Seq<u8>| #[trigger]
                    ranges.contains_key(k) && ranges[k] != region@.id && !disjoint(
                        regions[ranges[k]],
                        region@,
                    );
                let j = index_of(pairs, k);
                assert(pairs[j].0 == k);
            }
        }
        false
    }

    /// Takes the peer at place `i` out of the store.
    pub(crate) fn take_peer(&mut self, i: usize) -> (peer: Peer<C>)
        requires
            old(self).wf(),
            i < old(self).region_peers@.len(),
        ensures
            peer == old(self).region_peers@[i as int],
            peer.wf(),
            final(self).wf_holding(peer.store.region@),
            final(self).peers() == old(self).peers().remove(peer.region_id),
            old(self).peers().contains_key(peer.region_id),
            old(self).peers()[peer.region_id] == peer@,
            final(self).region_ranges == old(self).region_ranges,
            final(self).cfg == old(self).cfg,
            final(self).store == old(self).store,
            final(self).peer_cache == old(self).peer_cache,
            final(self).pending_raft_groups == old(self).pending_raft_groups,
    {
        proof {
            lemma_take_peer(self.region_peers@, i as int);
            lemma_peer_at(self.region_peers@, i as int);
        }
        let peer = self.region_peers.remove(i);
        proof {
            let m = old(self).peers();
            lemma_regions_of(m, peer.region_id, peer@);
            assert(self.regions().insert(peer.region_id, peer.store.region@) =~= old(self).regions());
        }
        peer
    }

    /// Adds region `region_id` to the regions whose consensus layer may have
    /// something ready.
    pub fn add_pending(&mut self, region_id: u64)
        ensures
            final(self).pending_raft_groups@ == pending_insert(
                old(self).pending_raft_groups@,
                region_id,
            ),
            final(self).cfg == old(self).cfg,
            final(self).store == old(self).store,
            final(self).region_peers == old(self).region_peers,
            final(self).region_ranges == old(self).region_ranges,
            final(self).peer_cache == old(self).peer_cache,
    {
        let mut i: usize = 0;
        while i < self.pending_raft_groups.len()
            invariant
                i <= self.pending_raft_groups@.len(),
                *self == *old(self),
                forall|k: int| 0 <= k < i ==> self.pending_raft_groups@[k] != region_id,
            decreases self.pending_raft_groups@.len() - i,
        {
            if self.pending_raft_groups[i] == region_id {
                return ;
            }
            i += 1;
        }
        self.pending_raft_groups.push(region_id);
    }

    /// Hands out the regions whose consensus layer may have something
    /// ready, in the order in which they came to be so, and forgets them.
    pub fn take_pending(&mut self) -> (ids: Vec<u64>)
        ensures
            ids@ == old(self).pending_raft_groups@,
            final(self).pending_raft_groups@.len() == 0,
            final(self).cfg == old(self).cfg,
            final(self).store == old(self).store,
            final(self).region_peers == old(self).region_peers,
            final(self).region_ranges == old(self).region_ranges,
            final(self).peer_cache == old(self).peer_cache,
    {
        let mut ids: Vec<u64> = Vec::new();
        std::mem::swap(&mut ids, &mut self.pending_raft_groups);
        ids
    }

    /// Puts the peer `peer`, which was held aside, back into the store.
    pub(crate) fn put_peer(&mut self, peer: Peer<C>)
        requires
            old(self).wf_holding(peer.store.region@),
            peer.wf(),
        ensures
            final(self).wf(),
            final(self).peers() == old(self).peers().insert(peer.region_id, peer@),
            final(self).region_ranges == old(self).region_ranges,
            final(self).cfg == old(self).cfg,
            final(self).store == old(self).store,
            final(self).peer_cache == old(self).peer_cache,
            final(self).pending_raft_groups == old(self).pending_raft_groups,
    {
        proof {
            lemma_put_peer(self.region_peers@, peer);
            lemma_regions_of(self.peers(), peer.region_id, peer@);
        }
        self.region_peers.push(peer);
    }
}

} // verus!
