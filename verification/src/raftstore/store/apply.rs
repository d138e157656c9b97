//! Applying committed log entries: finding the callback that waits for an
//! entry, executing the entry's command, and recording how far the log has
//! been applied.

use crate::proto::metapb;
use crate::proto::metapb::RegionView;
use crate::proto::raft_cmdpb::{
    RaftCmdRequest, RaftCmdResponse, RaftCmdResponseView, RaftResponseHeader, ResponseBodyView,
};
use crate::proto::raft_serverpb::RaftApplyState;
use crate::proto::raftpb::{Entry, EntryData};
use crate::raftstore::errors::{Error, ErrorKind, Reason};
use crate::raftstore::store::cmd_resp;
use crate::raftstore::store::engine::{
    apply_writes, Snapshot, SnapshotView, WriteBatch, WriteOp, WriteOpView,
};
use crate::raftstore::store::exec::{spec_exec_raft_cmd, ExecState};
use crate::raftstore::store::keys;
use crate::raftstore::store::keys::spec_apply_state_key;
use crate::raftstore::store::peer::{
    batches_view, exec_result_view, exec_results_view, lemma_cache_lookup_idempotent,
    not_leader_response, notifications_view, spec_cache_lookup, ExecResult, ExecResultView,
    Notification, NotificationView, Peer, PeerCache, PeerView, StorageView,
};
use crate::raftstore::store::peer_storage::indexes_ordered;
use crate::raftstore::store::pending::{
    found_behind_superseded, lemma_superseded_count_bound, superseded_count, PendingCmd,
};
use vstd::prelude::*;

verus! {

broadcast use vstd::std_specs::hash::group_hash_axioms;

/// What the search for the callback of an entry leaves: the callback, if
/// the command still waited; the commands that the entry supersedes; and
/// the commands that go on waiting.
pub struct Found<C> {
    pub cb: Option<C>,
    pub stale: Seq<PendingCmd<C>>,
    pub normals: Seq<PendingCmd<C>>,
    pub conf_change: Option<PendingCmd<C>>,
}

/// The search for the callback of the entry of command `uuid` at `term`.
///
/// A change of membership is looked for in the one place for such: what
/// waits there is taken out, and it is superseded unless it is the command.
/// A data command is looked for at the front of the queue: every command
/// before it that was proposed at or before `term` is superseded.
pub open spec fn spec_find_cb<C>(
    normals: Seq<PendingCmd<C>>,
    conf_change: Option<PendingCmd<C>>,
    uuid: u128,
    term: u64,
    is_change_peer: bool,
) -> Found<C> {
    if is_change_peer {
        match conf_change {
            Some(c) => if c.uuid == uuid {
                Found { cb: Some(c.cb), stale: Seq::empty(), normals, conf_change: None }
            } else {
                Found { cb: None, stale: seq![c], normals, conf_change: None }
            },
            None => Found { cb: None, stale: Seq::empty(), normals, conf_change: None },
        }
    } else {
        let n = superseded_count(normals, uuid, term) as int;
        if found_behind_superseded(normals, uuid, term) {
            Found {
                cb: Some(normals[n].cb),
                stale: normals.subrange(0, n),
                normals: normals.skip(n + 1),
                conf_change,
            }
        } else {
            Found { cb: None, stale: normals.subrange(0, n), normals: normals.skip(n), conf_change }
        }
    }
}

/// The notifications that tell the clients of `stale` that leadership may
/// have changed, one for each command, in order.
pub open spec fn stale_notifications<C>(
    stale: Seq<PendingCmd<C>>,
    region_id: u64,
    leader: Option<metapb::Peer>,
    term: u64,
) -> Seq<NotificationView<C>> {
    Seq::new(
        stale.len(),
        |i: int|
            NotificationView {
                cb: stale[i].cb,
                resp: not_leader_response(region_id, leader, stale[i].uuid, term),
            },
    )
}

/// Every data command that waited when an entry was applied is in exactly
/// one of three places afterwards: among those told that leadership may
/// have changed, each once and in order; answered, if it is the entry's
/// command; or still waiting.
pub proof fn lemma_find_cb_partitions<C>(normals: Seq<PendingCmd<C>>, uuid: u128, term: u64)
    ensures
        ({
            let found = spec_find_cb(normals, None, uuid, term, false);
            let n = superseded_count(normals, uuid, term) as int;
            &&& n <= normals.len()
            &&& found.cb is Some ==> n < normals.len() && normals[n].uuid == uuid
                && found.cb == Some(normals[n].cb) && normals == found.stale + seq![normals[n]]
                + found.normals
            &&& found.cb is None ==> normals == found.stale + found.normals
            &&& forall|i: int| 0 <= i < found.stale.len() ==> found.stale[i].uuid != uuid
        }),
{
    lemma_superseded_count_bound(normals, uuid, term);
    let found = spec_find_cb(normals, None, uuid, term, false);
    let n = superseded_count(normals, uuid, term) as int;
    if found.cb is Some {
        assert(normals =~= found.stale + seq![normals[n]] + found.normals);
    } else {
        assert(normals =~= found.stale + found.normals);
    }
    lemma_superseded_are_others(normals, uuid, term);
}

/// None of the superseded commands is the entry's command.
proof fn lemma_superseded_are_others<C>(normals: Seq<PendingCmd<C>>, uuid: u128, term: u64)
    ensures
        forall|i: int|
            0 <= i < superseded_count(normals, uuid, term) ==> (#[trigger] normals[i]).uuid != uuid
                && normals[i].term <= term,
    decreases normals.len(),
{
    if !(normals.len() == 0 || normals[0].term > term || normals[0].uuid == uuid) {
        let rest = normals.drop_first();
        lemma_superseded_are_others(rest, uuid, term);
        lemma_superseded_count_bound(rest, uuid, term);
        assert forall|i: int| 0 <= i < superseded_count(normals, uuid, term) implies (
        #[trigger] normals[i]).uuid != uuid && normals[i].term <= term by {
            if i > 0 {
                assert(normals[i] == rest[i - 1]);
            }
        }
    }
}

/// The region that a peer has after a command with this result.
pub open spec fn region_after(region: RegionView, exec_result: Option<ExecResultView>) -> RegionView {
    match exec_result {
        Some(ExecResultView::ChangePeer { region, .. }) => region,
        Some(ExecResultView::SplitRegion { left, .. }) => left,
        _ => region,
    }
}

/// The response to a command that ended with `result`.
pub open spec fn response_of(
    result: Result<(ResponseBodyView, Option<ExecResultView>), ErrorKind>,
) -> RaftCmdResponseView {
    match result {
        Ok((body, _)) => RaftCmdResponseView { body, ..RaftCmdResponseView::empty() },
        Err(e) => RaftCmdResponseView::of_error(e),
    }
}

/// What applying one entry leaves: the peer, the cache, the answer, what
/// the store must do, and the writes to commit as one.
pub struct ApplyOutcome<C> {
    pub peer: PeerView<C>,
    pub cache: Map<u64, metapb::Peer>,
    pub resp: RaftCmdResponseView,
    pub exec_result: Option<ExecResultView>,
    pub ops: Seq<WriteOpView>,
}

/// The write that persists the apply state of region `region_id`.
pub open spec fn apply_state_write(region_id: u64, state: RaftApplyState) -> WriteOpView {
    WriteOpView::PutApplyState { key: spec_apply_state_key(region_id), state }
}

/// Applying the command of the entry at `index`.
///
/// A peer that is about to be removed answers `RegionNotFound` and does
/// nothing. Otherwise the command is executed; whether or not it succeeds,
/// the applied index moves to `index`, and the new apply state goes into
/// the same batch as the command's own writes.
pub open spec fn spec_apply_raft_cmd<C>(
    m: PeerView<C>,
    cache: Map<u64, metapb::Peer>,
    snap: SnapshotView,
    index: u64,
    req: &RaftCmdRequest,
    compact_term: Option<u64>,
) -> ApplyOutcome<C> {
    if m.pending_remove {
        let resp = RaftCmdResponseView::of_error(
            ErrorKind::RegionNotFound { region_id: m.region_id },
        );
        ApplyOutcome {
            peer: m,
            cache,
            resp: match req.spec_uuid() {
                Some(uuid) => resp.with_uuid(uuid),
                None => resp,
            },
            exec_result: None,
            ops: Seq::empty(),
        }
    } else {
        let s = ExecState {
            peer_id: m.peer.id,
            region: m.store.region,
            apply_state: m.store.apply_state,
            cache,
            hint: m.size_diff_hint,
            pending_remove: m.pending_remove,
        };
        let out = spec_exec_raft_cmd(s, snap, req, compact_term);
        let apply_state = RaftApplyState { applied_index: index, ..out.apply_state };
        let exec_result = match out.result {
            Ok((_, exec_result)) => exec_result,
            Err(_) => None,
        };
        ApplyOutcome {
            peer: PeerView {
                store: StorageView {
                    region: region_after(m.store.region, exec_result),
                    apply_state,
                    ..m.store
                },
                size_diff_hint: out.hint,
                pending_remove: out.pending_remove,
                ..m
            },
            cache: out.cache,
            resp: response_of(out.result),
            exec_result,
            ops: out.ops.push(apply_state_write(m.region_id, apply_state)),
        }
    }
}

/// Whether an entry at `index` is the next to apply: past what was
/// applied, and not past what was committed.
pub open spec fn index_in_order(store: StorageView, index: u64) -> bool {
    store.apply_state.applied_index < index <= store.raft_state.hard_state.commit
}

/// Why an entry at `index` is refused, if it is.
pub open spec fn index_refusal(store: StorageView, index: u64) -> Option<ErrorKind> {
    if index <= store.apply_state.applied_index {
        Some(ErrorKind::Other { reason: Reason::AppliedIndexMovedBackwards })
    } else if index > store.raft_state.hard_state.commit {
        Some(ErrorKind::Other { reason: Reason::IndexOutOfRange })
    } else {
        None
    }
}

/// What handling one entry leaves.
pub struct StepOutcome<C> {
    pub peer: PeerView<C>,
    pub cache: Map<u64, metapb::Peer>,
    pub exec_result: Option<ExecResultView>,
    pub ops: Seq<WriteOpView>,
    pub notifications: Seq<NotificationView<C>>,
    /// For an entry that changes membership: whether the change went
    /// through, so that the consensus layer takes it, or was aborted.
    pub conf_change: Option<bool>,
}

/// Handling the command `req` of the entry at `index` and `term`.
///
/// An entry out of order, or a command without uuid, is refused and
/// nothing happens. Otherwise the callback of the command is looked for,
/// the commands that the entry supersedes are told that leadership may have
/// changed, the command is applied, and its callback, if it was found, gets
/// the answer, marked with the command's uuid and the current term.
pub open spec fn spec_process_raft_cmd<C>(
    m: PeerView<C>,
    cache: Map<u64, metapb::Peer>,
    snap: SnapshotView,
    index: u64,
    term: u64,
    req: &RaftCmdRequest,
    compact_term: Option<u64>,
) -> Result<StepOutcome<C>, ErrorKind> {
    match index_refusal(m.store, index) {
        Some(e) => Err(e),
        None => match req.spec_uuid() {
            None => Err(ErrorKind::Other { reason: Reason::MissingUuid }),
            Some(uuid) => {
                let found = spec_find_cb(
                    m.normals,
                    m.conf_change,
                    uuid,
                    term,
                    req.is_change_peer(),
                );
                let lookup = spec_cache_lookup(cache, m.store.region.peers, m.raft_group.leader_id);
                let cache1 = if found.stale.len() > 0 {
                    lookup.1
                } else {
                    cache
                };
                let m1 = PeerView { normals: found.normals, conf_change: found.conf_change, ..m };
                let applied = spec_apply_raft_cmd(m1, cache1, snap, index, req, compact_term);
                let answer = match found.cb {
                    Some(cb) => seq![
                        NotificationView {
                            cb,
                            resp: applied.resp.with_uuid(uuid).with_term(m.raft_group.term),
                        },
                    ],
                    None => Seq::empty(),
                };
                Ok(
                    StepOutcome {
                        peer: applied.peer,
                        cache: applied.cache,
                        exec_result: applied.exec_result,
                        ops: applied.ops,
                        notifications: stale_notifications(
                            found.stale,
                            m.region_id,
                            lookup.0,
                            m.raft_group.term,
                        ) + answer,
                        conf_change: None,
                    },
                )
            },
        },
    }
}

/// Handling one committed entry.
///
/// An empty entry only moves the applied index. An entry with a command is
/// processed; if it changes membership, the consensus layer is told
/// whether the change went through.
pub open spec fn spec_handle_entry<C>(
    m: PeerView<C>,
    cache: Map<u64, metapb::Peer>,
    snap: SnapshotView,
    entry: &Entry,
) -> Result<StepOutcome<C>, ErrorKind> {
    match entry.data {
        EntryData::Malformed => Err(ErrorKind::Other { reason: Reason::MalformedEntry }),
        EntryData::Empty => match index_refusal(m.store, entry.index) {
            Some(e) => Err(e),
            None => {
                let apply_state = RaftApplyState {
                    applied_index: entry.index,
                    ..m.store.apply_state
                };
                Ok(
                    StepOutcome {
                        peer: PeerView { store: StorageView { apply_state, ..m.store }, ..m },
                        cache,
                        exec_result: None,
                        ops: seq![apply_state_write(m.region_id, apply_state)],
                        notifications: Seq::empty(),
                        conf_change: None,
                    },
                )
            },
        },
        EntryData::Normal(req) => spec_process_raft_cmd(
            m,
            cache,
            snap,
            entry.index,
            entry.term,
            &req,
            entry.compact_term,
        ),
        EntryData::ConfChange(req) => match spec_process_raft_cmd(
            m,
            cache,
            snap,
            entry.index,
            entry.term,
            &req,
            entry.compact_term,
        ) {
            Err(e) => Err(e),
            Ok(out) => Ok(StepOutcome { conf_change: Some(out.exec_result is Some), ..out }),
        },
    }
}

/// What handling a run of committed entries leaves.
pub struct EntriesOutcome<C> {
    pub peer: PeerView<C>,
    pub cache: Map<u64, metapb::Peer>,
    pub snap: SnapshotView,
    pub exec_results: Seq<ExecResultView>,
    /// One batch for each entry, in order; each is committed as one.
    pub batches: Seq<Seq<WriteOpView>>,
    pub notifications: Seq<NotificationView<C>>,
    /// For each entry that changes membership, in order, whether the change
    /// went through.
    pub conf_changes: Seq<bool>,
    /// Why the run ended early, if it did.
    pub refused: Option<ErrorKind>,
}

/// The one item of an option, or none.
pub open spec fn option_seq<T>(o: Option<T>) -> Seq<T> {
    match o {
        Some(x) => seq![x],
        None => Seq::empty(),
    }
}

/// Handling a run of committed entries, first to last. Each entry meets the
/// engine as the entries before it left it. The first entry that is
/// refused ends the run: what the entries before it did stands, and the
/// entries behind it are not looked at.
pub open spec fn spec_handle_entries<C>(
    m: PeerView<C>,
    cache: Map<u64, metapb::Peer>,
    snap: SnapshotView,
    entries: Seq<Entry>,
) -> EntriesOutcome<C>
    decreases entries.len(),
{
    if entries.len() == 0 {
        EntriesOutcome {
            peer: m,
            cache,
            snap,
            exec_results: Seq::empty(),
            batches: Seq::empty(),
            notifications: Seq::empty(),
            conf_changes: Seq::empty(),
            refused: None,
        }
    } else {
        let prev = spec_handle_entries(m, cache, snap, entries.drop_last());
        if prev.refused is Some {
            prev
        } else {
            match spec_handle_entry(prev.peer, prev.cache, prev.snap, &entries.last()) {
                Err(e) => EntriesOutcome { refused: Some(e), ..prev },
                Ok(step) => EntriesOutcome {
                    peer: step.peer,
                    cache: step.cache,
                    snap: apply_writes(prev.snap, step.ops),
                    exec_results: prev.exec_results + option_seq(step.exec_result),
                    batches: prev.batches.push(step.ops),
                    notifications: prev.notifications + step.notifications,
                    conf_changes: prev.conf_changes + option_seq(step.conf_change),
                    refused: None,
                },
            }
        }
    }
}

/// Once an entry of the run is refused, the entries behind it change
/// nothing.
pub proof fn lemma_refusal_ends_run<C>(
    m: PeerView<C>,
    cache: Map<u64, metapb::Peer>,
    snap: SnapshotView,
    entries: Seq<Entry>,
    n: int,
)
    requires
        0 <= n <= entries.len(),
        spec_handle_entries(m, cache, snap, entries.subrange(0, n)).refused is Some,
    ensures
        spec_handle_entries(m, cache, snap, entries) == spec_handle_entries(
            m,
            cache,
            snap,
            entries.subrange(0, n),
        ),
    decreases entries.len() - n,
{
    if n < entries.len() {
        assert(entries.subrange(0, n + 1).drop_last() =~= entries.subrange(0, n));
        lemma_refusal_ends_run(m, cache, snap, entries, n + 1);
    } else {
        assert(entries.subrange(0, n) =~= entries);
    }
}

/// An entry at or before the applied index is refused, whatever command
/// it holds: nothing is applied a second time.
pub proof fn lemma_stale_entry_is_refused<C>(
    m: PeerView<C>,
    cache: Map<u64, metapb::Peer>,
    snap: SnapshotView,
    entry: &Entry,
)
    requires
        entry.index <= m.store.apply_state.applied_index,
        !(entry.data is Malformed),
    ensures
        spec_handle_entry(m, cache, snap, entry) == Err::<StepOutcome<C>, ErrorKind>(
            ErrorKind::Other { reason: Reason::AppliedIndexMovedBackwards },
        ),
{
}

/// The applied index never moves back: after a run of committed entries,
/// refused or not, it is at or past where it was.
pub proof fn lemma_applied_index_never_moves_back<C>(
    m: PeerView<C>,
    cache: Map<u64, metapb::Peer>,
    snap: SnapshotView,
    entries: Seq<Entry>,
)
    ensures
        m.store.apply_state.applied_index <= spec_handle_entries(
            m,
            cache,
            snap,
            entries,
        ).peer.store.apply_state.applied_index,
    decreases entries.len(),
{
    if entries.len() > 0 {
        lemma_applied_index_never_moves_back(m, cache, snap, entries.drop_last());
    }
}

/// The order of the log positions of a peer, as a statement about its view.
pub open spec fn view_ordered(store: StorageView) -> bool {
    indexes_ordered(store.raft_state, store.apply_state)
}

/// Applying a command in order keeps the log positions in order: the
/// compaction point stays at or before the applied index, the applied index
/// at or before the commit index, that at or before the last index.
pub proof fn lemma_apply_keeps_order<C>(
    m: PeerView<C>,
    cache: Map<u64, metapb::Peer>,
    snap: SnapshotView,
    index: u64,
    req: &RaftCmdRequest,
    compact_term: Option<u64>,
)
    requires
        view_ordered(m.store),
        index_in_order(m.store, index),
    ensures
        view_ordered(spec_apply_raft_cmd(m, cache, snap, index, req, compact_term).peer.store),
        m.store.apply_state.applied_index <= spec_apply_raft_cmd(
            m,
            cache,
            snap,
            index,
            req,
            compact_term,
        ).peer.store.apply_state.applied_index,
        spec_apply_raft_cmd(m, cache, snap, index, req, compact_term).peer.store.region.id
            == m.store.region.id,
{
}

/// Handling an entry keeps the log positions in order and never moves the
/// applied index back.
pub proof fn lemma_entry_keeps_order<C>(
    m: PeerView<C>,
    cache: Map<u64, metapb::Peer>,
    snap: SnapshotView,
    entry: &Entry,
)
    requires
        view_ordered(m.store),
        spec_handle_entry(m, cache, snap, entry) is Ok,
    ensures
        view_ordered(spec_handle_entry(m, cache, snap, entry)->Ok_0.peer.store),
        m.store.apply_state.applied_index <= spec_handle_entry(
            m,
            cache,
            snap,
            entry,
        )->Ok_0.peer.store.apply_state.applied_index,
        m.store.apply_state.truncated_state.index <= spec_handle_entry(
            m,
            cache,
            snap,
            entry,
        )->Ok_0.peer.store.apply_state.truncated_state.index,
{
    match entry.data {
        EntryData::Normal(req) => {
            let uuid = req.spec_uuid()->0;
            let found = spec_find_cb(m.normals, m.conf_change, uuid, entry.term, req.is_change_peer());
            let lookup = spec_cache_lookup(cache, m.store.region.peers, m.raft_group.leader_id);
            let cache1 = if found.stale.len() > 0 {
                lookup.1
            } else {
                cache
            };
            let m1 = PeerView { normals: found.normals, conf_change: found.conf_change, ..m };
            lemma_apply_keeps_order(m1, cache1, snap, entry.index, &req, entry.compact_term);
        },
        EntryData::ConfChange(req) => {
            let uuid = req.spec_uuid()->0;
            let found = spec_find_cb(m.normals, m.conf_change, uuid, entry.term, req.is_change_peer());
            let lookup = spec_cache_lookup(cache, m.store.region.peers, m.raft_group.leader_id);
            let cache1 = if found.stale.len() > 0 {
                lookup.1
            } else {
                cache
            };
            let m1 = PeerView { normals: found.normals, conf_change: found.conf_change, ..m };
            lemma_apply_keeps_order(m1, cache1, snap, entry.index, &req, entry.compact_term);
        },
        _ => {},
    }
}

/// What handling one entry hands back.
pub struct Applied<C> {
    pub exec_result: Option<ExecResult>,
    pub write_batch: WriteBatch,
    pub notifications: Vec<Notification<C>>,
    pub conf_change: Option<bool>,
}

/// What handling a run of entries hands back. `refused` is the error with
/// which an entry was refused, if one was: the entries before it were
/// handled, the entries from it on were not.
pub struct Committed<C> {
    pub exec_results: Vec<ExecResult>,
    pub write_batches: Vec<WriteBatch>,
    pub notifications: Vec<Notification<C>>,
    pub conf_changes: Vec<bool>,
    pub refused: Option<Error>,
}

/// The view of an optional error.
pub open spec fn error_view(e: Option<Error>) -> Option<ErrorKind> {
    match e {
        Some(e) => Some(e@),
        None => None,
    }
}

impl<C> Peer<C> {
    /// Finds the callback that waits for the entry of command `uuid` at
    /// `term`, and tells the commands that the entry supersedes that
    /// leadership may have changed.
    pub fn find_cb(
        &mut self,
        cache: &mut PeerCache,
        uuid: u128,
        term: u64,
        cmd: &RaftCmdRequest,
        notifications: &mut Vec<Notification<C>>,
    ) -> (r: Option<C>)
        requires
            old(self).wf(),
        ensures
            final(self).wf(),
            ({
                let m = old(self)@;
                let found = spec_find_cb(
                    m.normals,
                    m.conf_change,
                    uuid,
                    term,
                    cmd.is_change_peer(),
                );
                let lookup = spec_cache_lookup(
                    old(cache)@,
                    m.store.region.peers,
                    m.raft_group.leader_id,
                );
                &&& r == found.cb
                &&& final(self)@ == (PeerView {
                    normals: found.normals,
                    conf_change: found.conf_change,
                    ..m
                })
                &&& final(self).store == old(self).store
                &&& final(cache)@ == if found.stale.len() > 0 {
                    lookup.1
                } else {
                    old(cache)@
                }
                &&& notifications_view(final(notifications)@) == notifications_view(
                    old(notifications)@,
                ) + stale_notifications(found.stale, m.region_id, lookup.0, m.raft_group.term)
            }),
    {
        let ghost m = self@;
        let ghost lookup = spec_cache_lookup(cache@, m.store.region.peers, m.raft_group.leader_id);
        let ghost start = notifications_view(notifications@);
        let is_change_peer = match &cmd.body {
            crate::proto::raft_cmdpb::CmdBody::Admin(
                crate::proto::raft_cmdpb::AdminRequest::ChangePeer { .. },
            ) => true,
            _ => false,
        };
        if is_change_peer {
            if let Some(cmd) = self.pending_cmds.take_conf_change() {
                if cmd.uuid == uuid {
                    assert(notifications_view(notifications@) =~= start + stale_notifications(
                        Seq::<PendingCmd<C>>::empty(),
                        m.region_id,
                        lookup.0,
                        m.raft_group.term,
                    ));
                    return Some(cmd.cb);
                } else {
                    let n = self.notify_not_leader(cache, cmd);
                    notifications.push(n);
                    assert(notifications_view(notifications@) =~= start + stale_notifications(
                        seq![cmd],
                        m.region_id,
                        lookup.0,
                        m.raft_group.term,
                    ));
                }
            } else {
                assert(notifications_view(notifications@) =~= start + stale_notifications(
                    Seq::<PendingCmd<C>>::empty(),
                    m.region_id,
                    lookup.0,
                    m.raft_group.term,
                ));
            }
            return None;
        }
        let ghost normals = m.normals;
        let ghost total = superseded_count(normals, uuid, term) as int;
        let waiting = self.pending_cmds.normals.len();
        let mut popped: usize = 0;
        proof {
            lemma_superseded_count_bound(normals, uuid, term);
            assert(normals.skip(0) =~= normals);
            assert(notifications_view(notifications@) =~= start + stale_notifications(
                normals.subrange(0, 0),
                m.region_id,
                lookup.0,
                m.raft_group.term,
            ));
        }
        loop
            invariant
                self.wf(),
                !cmd.is_change_peer(),
                m == old(self)@,
                normals == m.normals,
                lookup == spec_cache_lookup(old(cache)@, m.store.region.peers, m.raft_group.leader_id),
                start == notifications_view(old(notifications)@),
                total == superseded_count(normals, uuid, term),
                total <= normals.len(),
                normals.len() == waiting,
                popped <= total,
                total == popped + superseded_count(normals.skip(popped as int), uuid, term),
                self@ == (PeerView { normals: normals.skip(popped as int), ..m }),
                self.store == old(self).store,
                cache@ == if popped > 0 {
                    lookup.1
                } else {
                    old(cache)@
                },
                notifications_view(notifications@) == start + stale_notifications(
                    normals.subrange(0, popped as int),
                    m.region_id,
                    lookup.0,
                    m.raft_group.term,
                ),
            ensures
                self.wf(),
                self.store == old(self).store,
                popped == total,
                !found_behind_superseded(normals, uuid, term),
                self@ == (PeerView { normals: normals.skip(total), ..m }),
                cache@ == if total > 0 {
                    lookup.1
                } else {
                    old(cache)@
                },
                notifications_view(notifications@) == start + stale_notifications(
                    normals.subrange(0, total),
                    m.region_id,
                    lookup.0,
                    m.raft_group.term,
                ),
            decreases normals.len() - popped,
        {
            let ghost rest = normals.skip(popped as int);
            proof {
                if rest.len() > 0 {
                    assert(rest[0] == normals[popped as int]);
                    assert(rest.drop_first() =~= normals.skip(popped + 1));
                }
            }
            match self.pending_cmds.pop_normal(term) {
                None => {
                    proof {
                        assert(superseded_count(rest, uuid, term) == 0);
                    }
                    break ;
                },
                Some(head) => {
                    if head.uuid == uuid {
                        proof {
                            assert(superseded_count(rest, uuid, term) == 0);
                            assert(total == popped);
                            assert(head == normals[total]);
                            assert(found_behind_superseded(normals, uuid, term));
                            assert(self@.normals == normals.skip(total + 1));
                            assert(self@.conf_change == m.conf_change);
                            let found = spec_find_cb(m.normals, m.conf_change, uuid, term, false);
                            assert(found.stale == normals.subrange(0, total));
                            assert(found.cb == Some(head.cb));
                            assert(self@ == (PeerView {
                                normals: found.normals,
                                conf_change: found.conf_change,
                                ..m
                            }));
                        }
                        return Some(head.cb);
                    }
                    proof {
                        assert(superseded_count(rest, uuid, term) == 1 + superseded_count(
                            rest.drop_first(),
                            uuid,
                            term,
                        ));
                    }
                    // the command that waited was given up: its client hears that
                    // this peer no longer leads.
                    let ghost before = notifications_view(notifications@);
                    proof {
                        lemma_cache_lookup_idempotent(
                            old(cache)@,
                            m.store.region.peers,
                            m.raft_group.leader_id,
                        );
                    }
                    let n = self.notify_not_leader(cache, head);
                    notifications.push(n);
                    popped += 1;
                    proof {
                        assert(notifications_view(notifications@) =~= before.push(n@));
                        assert(normals.subrange(0, popped as int) =~= normals.subrange(
                            0,
                            popped - 1,
                        ).push(head));
                        assert(notifications_view(notifications@) =~= start + stale_notifications(
                            normals.subrange(0, popped as int),
                            m.region_id,
                            lookup.0,
                            m.raft_group.term,
                        ));
                    }
                },
            }
        }
        None
    }

    /// Applies the command of the entry at `index`.
    pub fn apply_raft_cmd(
        &mut self,
        cache: &mut PeerCache,
        snap: &Snapshot,
        index: u64,
        req: &RaftCmdRequest,
        compact_term: Option<u64>,
    ) -> (r: (RaftCmdResponse, Option<ExecResult>, WriteBatch))
        requires
            old(self).wf(),
            snap.wf(),
            index_in_order(old(self)@.store, index),
        ensures
            final(self).wf(),
            ({
                let out = spec_apply_raft_cmd(
                    old(self)@,
                    old(cache)@,
                    snap@,
                    index,
                    req,
                    compact_term,
                );
                &&& final(self)@ == out.peer
                &&& final(cache)@ == out.cache
                &&& r.0@ == out.resp
                &&& exec_result_view(r.1) == out.exec_result
                &&& r.2@ == out.ops
            }),
    {
        if self.pending_remove {
            let region_not_found = Error::RegionNotFound { region_id: self.region_id };
            let mut resp = cmd_resp::new_error(region_not_found);
            if let Some(uuid) = crate::raftstore::store::util::get_uuid_from_req(req) {
                cmd_resp::bind_uuid(&mut resp, uuid);
            }
            return (resp, None, WriteBatch::new());
        }
        let mut apply_state = self.store.apply_state;
        let mut wb = WriteBatch::new();
        let ghost m = self@;
        proof {
            assert(Seq::<WriteOpView>::empty() + spec_exec_raft_cmd(
                self.exec_state(apply_state, cache@),
                snap@,
                req,
                compact_term,
            ).ops =~= spec_exec_raft_cmd(
                self.exec_state(apply_state, cache@),
                snap@,
                req,
                compact_term,
            ).ops);
        }
        let (resp, exec_result) = match self.exec_raft_cmd(
            cache,
            snap,
            &mut wb,
            &mut apply_state,
            req,
            compact_term,
        ) {
            Ok((body, exec_result)) => (
                RaftCmdResponse {
                    header: RaftResponseHeader { error: None, uuid: None, current_term: 0 },
                    body,
                },
                exec_result,
            ),
            Err(e) => (cmd_resp::new_error(e), None),
        };
        apply_state.applied_index = index;
        wb.push(
            WriteOp::PutApplyState { key: keys::apply_state_key(self.region_id), state: apply_state },
        );

        // Commit write and change storage fields atomically.
        self.store.apply_state = apply_state;
        match &exec_result {
            Some(ExecResult::ChangePeer { region, .. }) => {
                self.store.region = region.clone();
            },
            Some(ExecResult::SplitRegion { left, .. }) => {
                self.store.region = left.clone();
            },
            _ => {},
        }
        (resp, exec_result, wb)
    }

    /// Handles the command of the entry at `index` and `term`.
    pub fn process_raft_cmd(
        &mut self,
        cache: &mut PeerCache,
        snap: &Snapshot,
        index: u64,
        term: u64,
        cmd: &RaftCmdRequest,
        compact_term: Option<u64>,
    ) -> (r: Result<Applied<C>, Error>)
        requires
            old(self).wf(),
            snap.wf(),
        ensures
            final(self).wf(),
            match spec_process_raft_cmd(
                old(self)@,
                old(cache)@,
                snap@,
                index,
                term,
                cmd,
                compact_term,
            ) {
                Err(e) => r matches Err(err) && err@ == e && final(self)@ == old(self)@ && final(self).store == old(self).store && final(cache)@ == old(cache)@,
                Ok(out) => r matches Ok(applied) && final(self)@ == out.peer && final(cache)@
                    == out.cache && exec_result_view(applied.exec_result) == out.exec_result
                    && applied.write_batch@ == out.ops && notifications_view(
                    applied.notifications@,
                ) == out.notifications && applied.conf_change == out.conf_change,
            },
    {
        if index <= self.store.applied_index() {
            return Err(Error::Other { reason: Reason::AppliedIndexMovedBackwards });
        }
        if index > self.store.commit_index() {
            return Err(Error::Other { reason: Reason::IndexOutOfRange });
        }
        let uuid = match crate::raftstore::store::util::get_uuid_from_req(cmd) {
            None => {
                return Err(Error::Other { reason: Reason::MissingUuid });
            },
            Some(uuid) => uuid,
        };
        let mut notifications: Vec<Notification<C>> = Vec::new();
        let ghost m = self@;
        let ghost found = spec_find_cb(m.normals, m.conf_change, uuid, term, cmd.is_change_peer());
        let ghost lookup = spec_cache_lookup(cache@, m.store.region.peers, m.raft_group.leader_id);
        proof {
            assert(notifications_view(notifications@) =~= Seq::<NotificationView<C>>::empty());
        }
        let cb = self.find_cb(cache, uuid, term, cmd, &mut notifications);
        proof {
            assert(notifications_view(notifications@) =~= stale_notifications(
                found.stale,
                m.region_id,
                lookup.0,
                m.raft_group.term,
            ));
        }
        let (mut resp, exec_result, wb) = self.apply_raft_cmd(cache, snap, index, cmd, compact_term);
        let cb = match cb {
            None => {
                proof {
                    assert(notifications_view(notifications@) + Seq::<
                        NotificationView<C>,
                    >::empty() =~= notifications_view(notifications@));
                }
                return Ok(
                    Applied { exec_result, write_batch: wb, notifications, conf_change: None },
                );
            },
            Some(cb) => cb,
        };
        // Bind uuid here.
        cmd_resp::bind_uuid(&mut resp, uuid);
        cmd_resp::bind_term(&mut resp, self.term());
        let ghost before = notifications_view(notifications@);
        let n = Notification { cb, resp };
        notifications.push(n);
        proof {
            assert(notifications_view(notifications@) =~= before + seq![n@]);
        }
        Ok(Applied { exec_result, write_batch: wb, notifications, conf_change: None })
    }

    /// Handles one committed entry.
    pub fn handle_raft_entry(&mut self, cache: &mut PeerCache, snap: &Snapshot, entry: &Entry) -> (r:
        Result<Applied<C>, Error>)
        requires
            old(self).wf(),
            snap.wf(),
        ensures
            final(self).wf(),
            match spec_handle_entry(old(self)@, old(cache)@, snap@, entry) {
                Err(e) => r matches Err(err) && err@ == e && final(self)@ == old(self)@ && final(cache)@ == old(cache)@,
                Ok(out) => r matches Ok(applied) && final(self)@ == out.peer && final(cache)@
                    == out.cache && exec_result_view(applied.exec_result) == out.exec_result
                    && applied.write_batch@ == out.ops && notifications_view(
                    applied.notifications@,
                ) == out.notifications && applied.conf_change == out.conf_change,
            },
    {
        match &entry.data {
            EntryData::Malformed => Err(Error::Other { reason: Reason::MalformedEntry }),
            EntryData::Empty => self.handle_raft_entry_empty(entry.index),
            EntryData::Normal(cmd) => self.handle_raft_entry_normal(
                cache,
                snap,
                entry.index,
                entry.term,
                cmd,
                entry.compact_term,
            ),
            EntryData::ConfChange(cmd) => self.handle_raft_entry_conf_change(
                cache,
                snap,
                entry.index,
                entry.term,
                cmd,
                entry.compact_term,
            ),
        }
    }

    /// Handles the empty entry at `index`.
    fn handle_raft_entry_empty(&mut self, index: u64) -> (r: Result<Applied<C>, Error>)
        requires
            old(self).wf(),
        ensures
            final(self).wf(),
            match index_refusal(old(self)@.store, index) {
                Some(e) => r matches Err(err) && err@ == e && final(self)@ == old(self)@,
                None => r matches Ok(applied) && final(self)@ == (PeerView {
                    store: StorageView {
                        apply_state: RaftApplyState {
                            applied_index: index,
                            ..old(self)@.store.apply_state
                        },
                        ..old(self)@.store
                    },
                    ..old(self)@
                }) && applied.exec_result is None && applied.write_batch@ == seq![
                    apply_state_write(
                        old(self).region_id,
                        RaftApplyState { applied_index: index, ..old(self)@.store.apply_state },
                    ),
                ] && applied.notifications@.len() == 0 && applied.conf_change is None,
            },
    {
        if index <= self.store.applied_index() {
            return Err(Error::Other { reason: Reason::AppliedIndexMovedBackwards });
        }
        if index > self.store.commit_index() {
            return Err(Error::Other { reason: Reason::IndexOutOfRange });
        }
        // when a peer become leader, it will send an empty entry.
        let mut wb = WriteBatch::new();
        let mut state = self.store.apply_state;
        state.applied_index = index;
        wb.push(WriteOp::PutApplyState { key: keys::apply_state_key(self.region_id), state });
        self.store.apply_state = state;
        Ok(
            Applied {
                exec_result: None,
                write_batch: wb,
                notifications: Vec::new(),
                conf_change: None,
            },
        )
    }

    /// Handles an entry that holds a data or administration command.
    fn handle_raft_entry_normal(
        &mut self,
        cache: &mut PeerCache,
        snap: &Snapshot,
        index: u64,
        term: u64,
        cmd: &RaftCmdRequest,
        compact_term: Option<u64>,
    ) -> (r: Result<Applied<C>, Error>)
        requires
            old(self).wf(),
            snap.wf(),
        ensures
            final(self).wf(),
            match spec_process_raft_cmd(
                old(self)@,
                old(cache)@,
                snap@,
                index,
                term,
                cmd,
                compact_term,
            ) {
                Err(e) => r matches Err(err) && err@ == e && final(self)@ == old(self)@ && final(cache)@ == old(cache)@,
                Ok(out) => r matches Ok(applied) && final(self)@ == out.peer && final(cache)@
                    == out.cache && exec_result_view(applied.exec_result) == out.exec_result
                    && applied.write_batch@ == out.ops && notifications_view(
                    applied.notifications@,
                ) == out.notifications && applied.conf_change == out.conf_change,
            },
    {
        self.process_raft_cmd(cache, snap, index, term, cmd, compact_term)
    }

    /// Handles an entry that changes membership: processes its command and
    /// notes for the consensus layer whether the change went through.
    fn handle_raft_entry_conf_change(
        &mut self,
        cache: &mut PeerCache,
        snap: &Snapshot,
        index: u64,
        term: u64,
        cmd: &RaftCmdRequest,
        compact_term: Option<u64>,
    ) -> (r: Result<Applied<C>, Error>)
        requires
            old(self).wf(),
            snap.wf(),
        ensures
            final(self).wf(),
            match spec_process_raft_cmd(
                old(self)@,
                old(cache)@,
                snap@,
                index,
                term,
                cmd,
                compact_term,
            ) {
                Err(e) => r matches Err(err) && err@ == e && final(self)@ == old(self)@ && final(cache)@ == old(cache)@,
                Ok(out) => r matches Ok(applied) && final(self)@ == out.peer && final(cache)@
                    == out.cache && exec_result_view(applied.exec_result) == out.exec_result
                    && applied.write_batch@ == out.ops && notifications_view(
                    applied.notifications@,
                ) == out.notifications && applied.conf_change == Some(out.exec_result is Some),
            },
    {
        match self.process_raft_cmd(cache, snap, index, term, cmd, compact_term) {
            Err(e) => Err(e),
            Ok(applied) => {
                // If failed, tell raft that the config change was aborted.
                let went_through = applied.exec_result.is_some();
                Ok(Applied { conf_change: Some(went_through), ..applied })
            },
        }
    }

    /// Handles a run of committed entries, first to last. `snap` is the
    /// engine as the first entry meets it; it takes the writes of each entry
    /// before the next entry reads it.
    pub fn handle_raft_commit_entries(
        &mut self,
        cache: &mut PeerCache,
        snap: &mut Snapshot,
        committed_entries: &Vec<Entry>,
    ) -> (done: Committed<C>)
        requires
            old(self).wf(),
            old(snap).wf(),
        ensures
            final(self).wf(),
            final(snap).wf(),
            ({
                let out = spec_handle_entries(
                    old(self)@,
                    old(cache)@,
                    old(snap)@,
                    committed_entries@,
                );
                &&& final(self)@ == out.peer
                &&& final(cache)@ == out.cache
                &&& final(snap)@ == out.snap
                &&& exec_results_view(done.exec_results@) == out.exec_results
                &&& batches_view(done.write_batches@) == out.batches
                &&& notifications_view(done.notifications@) == out.notifications
                &&& done.conf_changes@ == out.conf_changes
                &&& error_view(done.refused) == out.refused
            }),
    {
        // If we send multiple ConfChange commands, only first one will be proposed correctly,
        // others will be saved as a normal entry with no data, so we must re-propose these
        // commands again.
        let mut done = Committed {
            exec_results: Vec::new(),
            write_batches: Vec::new(),
            notifications: Vec::new(),
            conf_changes: Vec::new(),
            refused: None,
        };
        let ghost m0 = self@;
        let ghost cache0 = cache@;
        let ghost snap0 = snap@;
        let mut i: usize = 0;
        proof {
            assert(exec_results_view(done.exec_results@) =~= Seq::<ExecResultView>::empty());
            assert(batches_view(done.write_batches@) =~= Seq::<Seq<WriteOpView>>::empty());
            assert(notifications_view(done.notifications@) =~= Seq::<NotificationView<C>>::empty());
            assert(committed_entries@.subrange(0, 0) =~= Seq::<Entry>::empty());
        }
        while i < committed_entries.len()
            invariant
                i <= committed_entries@.len(),
                self.wf(),
                snap.wf(),
                m0 == old(self)@,
                cache0 == old(cache)@,
                snap0 == old(snap)@,
                done.refused is None,
                ({
                    let out = spec_handle_entries(
                        m0,
                        cache0,
                        snap0,
                        committed_entries@.subrange(0, i as int),
                    );
                    &&& out.refused is None
                    &&& self@ == out.peer
                    &&& cache@ == out.cache
                    &&& snap@ == out.snap
                    &&& exec_results_view(done.exec_results@) == out.exec_results
                    &&& batches_view(done.write_batches@) == out.batches
                    &&& notifications_view(done.notifications@) == out.notifications
                    &&& done.conf_changes@ == out.conf_changes
                }),
            decreases committed_entries@.len() - i,
        {
            let ghost prev = spec_handle_entries(
                m0,
                cache0,
                snap0,
                committed_entries@.subrange(0, i as int),
            );
            proof {
                assert(committed_entries@.subrange(0, i + 1).drop_last()
                    =~= committed_entries@.subrange(0, i as int));
                assert(committed_entries@.subrange(0, i + 1).last() == committed_entries@[i as int]);
            }
            match self.handle_raft_entry(cache, snap, &committed_entries[i]) {
                Err(e) => {
                    proof {
                        lemma_refusal_ends_run(m0, cache0, snap0, committed_entries@, i + 1);
                    }
                    done.refused = Some(e);
                    return done;
                },
                Ok(applied) => {
                    let ghost step = spec_handle_entry(
                        prev.peer,
                        prev.cache,
                        prev.snap,
                        &committed_entries@[i as int],
                    )->Ok_0;
                    let Applied { exec_result, write_batch, mut notifications, conf_change } =
                        applied;
                    snap.write(&write_batch);
                    let ghost results_before = exec_results_view(done.exec_results@);
                    let ghost batches_before = batches_view(done.write_batches@);
                    let ghost notes_before = notifications_view(done.notifications@);
                    let ghost notes_step = notifications_view(notifications@);
                    if let Some(res) = exec_result {
                        done.exec_results.push(res);
                        proof {
                            assert(exec_results_view(done.exec_results@) =~= results_before
                                + option_seq(step.exec_result));
                        }
                    } else {
                        proof {
                            assert(exec_results_view(done.exec_results@) =~= results_before
                                + option_seq(step.exec_result));
                        }
                    }
                    done.write_batches.push(write_batch);
                    proof {
                        assert(batches_view(done.write_batches@) =~= batches_before.push(step.ops));
                    }
                    done.notifications.append(&mut notifications);
                    proof {
                        assert(notifications_view(done.notifications@) =~= notes_before
                            + notes_step);
                    }
                    let ghost changes_before = done.conf_changes@;
                    if let Some(went_through) = conf_change {
                        done.conf_changes.push(went_through);
                    }
                    proof {
                        assert(done.conf_changes@ =~= changes_before + option_seq(step.conf_change));
                    }
                },
            }
            i += 1;
        }
        proof {
            assert(committed_entries@.subrange(0, i as int) =~= committed_entries@);
        }
        done
    }
}

/// Whether `res` is what a command can leave of the region `r`: a change
/// of membership keeps id and range; a split cuts `r` at a key strictly
/// inside it, the left half keeping the id and the peers, the right half
/// having a peer on each store on which `r` has one.
pub open spec fn result_follows(r: RegionView, res: ExecResultView) -> bool {
    match res {
        ExecResultView::ChangePeer { region, .. } => region.id == r.id && region.start_key
            == r.start_key && region.end_key == r.end_key,
        ExecResultView::SplitRegion { left, right } => {
            &&& left.id == r.id
            &&& left.start_key == r.start_key
            &&& left.end_key == right.start_key
            &&& right.end_key == r.end_key
            &&& crate::util::codec::order::lex_lt(r.start_key, left.end_key)
            &&& crate::raftstore::store::util::key_in_region(left.end_key, r)
            &&& left.peers == r.peers
            &&& right.peers.len() == r.peers.len()
            &&& forall|i: int|
                0 <= i < r.peers.len() ==> (#[trigger] right.peers[i]).store_id
                    == r.peers[i].store_id
        },
        ExecResultView::CompactLog { .. } => true,
    }
}

/// The region after a run of results, first to last.
pub open spec fn region_after_all(r: RegionView, results: Seq<ExecResultView>) -> RegionView
    decreases results.len(),
{
    if results.len() == 0 {
        r
    } else {
        region_after(region_after_all(r, results.drop_last()), Some(results.last()))
    }
}

/// Whether each of `results` follows from the region that the results
/// before it left.
pub open spec fn results_follow(r: RegionView, results: Seq<ExecResultView>) -> bool
    decreases results.len(),
{
    if results.len() == 0 {
        true
    } else {
        results_follow(r, results.drop_last()) && result_follows(
            region_after_all(r, results.drop_last()),
            results.last(),
        )
    }
}

/// What applying a command leaves of the region follows from the region as
/// it was, and the region changes only as the result says.
pub proof fn lemma_apply_result_follows<C>(
    m: PeerView<C>,
    cache: Map<u64, metapb::Peer>,
    snap: SnapshotView,
    index: u64,
    req: &RaftCmdRequest,
    compact_term: Option<u64>,
)
    ensures
        ({
            let out = spec_apply_raft_cmd(m, cache, snap, index, req, compact_term);
            &&& out.peer.store.region == region_after(m.store.region, out.exec_result)
            &&& out.exec_result matches Some(res) ==> result_follows(m.store.region, res)
            &&& out.peer.region_id == m.region_id
            &&& out.peer.peer == m.peer
            &&& out.peer.raft_group == m.raft_group
            &&& out.peer.store.snap_state == m.store.snap_state
        }),
{
}

/// What handling an entry leaves of the region follows from the region as
/// it was, and the region changes only as the result says.
pub proof fn lemma_entry_result_follows<C>(
    m: PeerView<C>,
    cache: Map<u64, metapb::Peer>,
    snap: SnapshotView,
    entry: &Entry,
)
    requires
        spec_handle_entry(m, cache, snap, entry) is Ok,
    ensures
        ({
            let out = spec_handle_entry(m, cache, snap, entry)->Ok_0;
            &&& out.peer.store.region == region_after(m.store.region, out.exec_result)
            &&& out.exec_result matches Some(res) ==> result_follows(m.store.region, res)
            &&& out.peer.region_id == m.region_id
            &&& out.peer.peer == m.peer
            &&& out.peer.raft_group == m.raft_group
            &&& out.peer.store.snap_state == m.store.snap_state
        }),
{
    match entry.data {
        EntryData::Normal(req) => {
            let uuid = req.spec_uuid()->0;
            let found = spec_find_cb(m.normals, m.conf_change, uuid, entry.term, req.is_change_peer());
            let lookup = spec_cache_lookup(cache, m.store.region.peers, m.raft_group.leader_id);
            let cache1 = if found.stale.len() > 0 {
                lookup.1
            } else {
                cache
            };
            let m1 = PeerView { normals: found.normals, conf_change: found.conf_change, ..m };
            lemma_apply_result_follows(m1, cache1, snap, entry.index, &req, entry.compact_term);
        },
        EntryData::ConfChange(req) => {
            let uuid = req.spec_uuid()->0;
            let found = spec_find_cb(m.normals, m.conf_change, uuid, entry.term, req.is_change_peer());
            let lookup = spec_cache_lookup(cache, m.store.region.peers, m.raft_group.leader_id);
            let cache1 = if found.stale.len() > 0 {
                lookup.1
            } else {
                cache
            };
            let m1 = PeerView { normals: found.normals, conf_change: found.conf_change, ..m };
            lemma_apply_result_follows(m1, cache1, snap, entry.index, &req, entry.compact_term);
        },
        _ => {},
    }
}

/// The results of a run of entries follow from one another, starting at the
/// region as the run met it, and lead to the region as the run left it.
pub proof fn lemma_entries_results_follow<C>(
    m: PeerView<C>,
    cache: Map<u64, metapb::Peer>,
    snap: SnapshotView,
    entries: Seq<Entry>,
)
    ensures
        ({
            let out = spec_handle_entries(m, cache, snap, entries);
            &&& results_follow(m.store.region, out.exec_results)
            &&& region_after_all(m.store.region, out.exec_results) == out.peer.store.region
            &&& out.peer.region_id == m.region_id
            &&& out.peer.peer == m.peer
            &&& out.peer.raft_group == m.raft_group
            &&& out.peer.store.snap_state == m.store.snap_state
        }),
    decreases entries.len(),
{
    if entries.len() > 0 {
        let prev = spec_handle_entries(m, cache, snap, entries.drop_last());
        lemma_entries_results_follow(m, cache, snap, entries.drop_last());
        if prev.refused is None {
            let step = spec_handle_entry(prev.peer, prev.cache, prev.snap, &entries.last());
            if step is Ok {
                lemma_entry_result_follows(prev.peer, prev.cache, prev.snap, &entries.last());
                let out = spec_handle_entries(m, cache, snap, entries);
                match step->Ok_0.exec_result {
                    Some(res) => {
                        assert(out.exec_results =~= prev.exec_results.push(res));
                        assert(out.exec_results.drop_last() =~= prev.exec_results);
                    },
                    None => {
                        assert(out.exec_results =~= prev.exec_results);
                    },
                }
            }
        }
    }
}

/// Handling a run of entries keeps the log positions in order: at every
/// time, what is compacted was applied, what is applied was committed,
/// what is committed is in the log.
pub proof fn lemma_entries_keep_order<C>(
    m: PeerView<C>,
    cache: Map<u64, metapb::Peer>,
    snap: SnapshotView,
    entries: Seq<Entry>,
)
    requires
        view_ordered(m.store),
    ensures
        view_ordered(spec_handle_entries(m, cache, snap, entries).peer.store),
        m.store.apply_state.applied_index <= spec_handle_entries(
            m,
            cache,
            snap,
            entries,
        ).peer.store.apply_state.applied_index,
        m.store.apply_state.truncated_state.index <= spec_handle_entries(
            m,
            cache,
            snap,
            entries,
        ).peer.store.apply_state.truncated_state.index,
    decreases entries.len(),
{
    if entries.len() > 0 {
        let prev = spec_handle_entries(m, cache, snap, entries.drop_last());
        lemma_entries_keep_order(m, cache, snap, entries.drop_last());
        if prev.refused is None {
            if spec_handle_entry(prev.peer, prev.cache, prev.snap, &entries.last()) is Ok {
                lemma_entry_keeps_order(prev.peer, prev.cache, prev.snap, &entries.last());
            }
        }
    }
}

} // verus!
