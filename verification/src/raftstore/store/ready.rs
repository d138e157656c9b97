//! What a peer does when the consensus layer reports that it is ready:
//! which messages go out and when, what is persisted, and which committed
//! entries are applied.

use crate::proto::metapb;
use crate::proto::metapb::RegionView;
use crate::proto::raft_cmdpb::CfName;
use crate::proto::raft_serverpb::{
    HardState, PeerState, RaftApplyState, RaftLocalState, RaftMessage, RaftMessageView,
    RaftTruncatedState, RegionLocalState,
};
use crate::proto::raftpb::{Entry, Message, MessageType, MessageView, SnapshotStatus};
use crate::raftstore::errors::{Error, ErrorKind, Reason};
use crate::raftstore::store::apply::{
    apply_state_write, error_view, spec_handle_entries, view_ordered, Committed,
};
use crate::raftstore::store::engine::{Snapshot, SnapshotView, WriteBatch, WriteOp, WriteOpView};
use crate::raftstore::store::keys;
use crate::raftstore::store::keys::{
    spec_data_end_key, spec_data_key, spec_raft_log_key, spec_raft_state_key,
    spec_region_state_key,
};
use crate::raftstore::store::peer::{
    batches_view, exec_results_view, notifications_view, notify_region_removed,
    region_removed_response, spec_cache_lookup, ExecResultView, Notification, NotificationView,
    Peer, PeerCache, PeerView, ReadyResult, StateRole, StorageView,
};
use crate::raftstore::store::peer_storage::{
    ApplySnapResult, LogEntry, PeerStorage, SnapState, SnapshotMeta,
};
use crate::raftstore::store::pending::{PendingCmd, PendingCmdQueue};
use crate::util::codec::order::{bytes_le, bytes_lt, lex_le, lex_lt, to_vec};
use vstd::prelude::*;

verus! {

broadcast use vstd::std_specs::hash::group_hash_axioms;

/// What the consensus layer hands over when it is ready.
#[derive(Debug)]
pub struct Ready {
    /// The consensus state to persist, if it changed.
    pub hs: Option<HardState>,
    /// The entries to append to the log.
    pub entries: Vec<LogEntry>,
    /// The snapshot to apply, if one arrived.
    pub snapshot: Option<SnapshotMeta>,
    /// The entries that are committed and not yet applied.
    pub committed_entries: Vec<Entry>,
    /// The messages to send to other peers.
    pub messages: Vec<Message>,
}

/// What to tell the consensus layer after a message could not be sent.
#[derive(Clone, Copy, Debug, PartialEq, Eq, Structural)]
pub enum RaftReport {
    Unreachable { to_peer_id: u64 },
    Snapshot { to_peer_id: u64, status: SnapshotStatus },
}

/// The envelope for the consensus message `msg` of a peer, and the cache
/// after the sender and the recipient were looked up; or the failure to
/// find one of the two.
pub open spec fn spec_send_raft_message<C>(
    m: PeerView<C>,
    cache: Map<u64, metapb::Peer>,
    msg: MessageView,
) -> Result<(RaftMessageView, Map<u64, metapb::Peer>), ErrorKind> {
    let from = spec_cache_lookup(cache, m.store.region.peers, msg.from);
    match from.0 {
        None => Err(ErrorKind::Other { reason: Reason::UnknownPeer }),
        Some(from_peer) => {
            let to = spec_cache_lookup(from.1, m.store.region.peers, msg.to);
            match to.0 {
                None => Err(ErrorKind::Other { reason: Reason::UnknownPeer }),
                Some(to_peer) => Ok(
                    (
                        RaftMessageView {
                            region_id: m.region_id,
                            from_peer,
                            to_peer,
                            message: Some(msg),
                            // set current epoch
                            region_epoch: Some(m.store.region.region_epoch),
                            is_tombstone: false,
                        },
                        to.1,
                    ),
                ),
            }
        },
    }
}

/// What to report after the envelope `msg` could not be sent: the recipient
/// is unreachable, and if the message carried a snapshot, the snapshot
/// failed.
pub open spec fn spec_send_failure_reports(msg: &RaftMessage) -> Seq<RaftReport> {
    if msg.spec_msg_type() == Some(MessageType::MsgSnapshot) {
        seq![
            RaftReport::Unreachable { to_peer_id: msg.to_peer.id },
            RaftReport::Snapshot { to_peer_id: msg.to_peer.id, status: SnapshotStatus::Failure },
        ]
    } else {
        seq![RaftReport::Unreachable { to_peer_id: msg.to_peer.id }]
    }
}

/// What to report after the envelope `msg` could not be sent.
pub fn send_failure_reports(msg: &RaftMessage) -> (r: Vec<RaftReport>)
    ensures
        r@ == spec_send_failure_reports(msg),
{
    let mut r: Vec<RaftReport> = Vec::new();
    r.push(RaftReport::Unreachable { to_peer_id: msg.to_peer.id });
    let is_snapshot = match &msg.message {
        Some(m) => match m.msg_type {
            MessageType::MsgSnapshot => true,
            _ => false,
        },
        None => false,
    };
    if is_snapshot {
        r.push(RaftReport::Snapshot {
            to_peer_id: msg.to_peer.id,
            status: SnapshotStatus::Failure,
        });
    }
    assert(r@ =~= spec_send_failure_reports(msg));
    r
}

/// The envelopes for a list of messages, first to last, and the cache after
/// all lookups; or the first failure.
pub open spec fn spec_envelopes<C>(
    m: PeerView<C>,
    cache: Map<u64, metapb::Peer>,
    msgs: Seq<MessageView>,
) -> Result<(Seq<RaftMessageView>, Map<u64, metapb::Peer>), ErrorKind>
    decreases msgs.len(),
{
    if msgs.len() == 0 {
        Ok((Seq::empty(), cache))
    } else {
        match spec_envelopes(m, cache, msgs.drop_last()) {
            Err(e) => Err(e),
            Ok((envelopes, cache)) => match spec_send_raft_message(m, cache, msgs.last()) {
                Err(e) => Err(e),
                Ok((envelope, cache)) => Ok((envelopes.push(envelope), cache)),
            },
        }
    }
}

/// Once a message of the list has no envelope, the list has none.
pub proof fn lemma_envelope_failure<C>(
    m: PeerView<C>,
    cache: Map<u64, metapb::Peer>,
    msgs: Seq<MessageView>,
    n: int,
)
    requires
        0 <= n <= msgs.len(),
        spec_envelopes(m, cache, msgs.subrange(0, n)) is Err,
    ensures
        spec_envelopes(m, cache, msgs) == spec_envelopes(m, cache, msgs.subrange(0, n)),
    decreases msgs.len() - n,
{
    if n < msgs.len() {
        assert(msgs.subrange(0, n + 1).drop_last() =~= msgs.subrange(0, n));
        lemma_envelope_failure(m, cache, msgs, n + 1);
    } else {
        assert(msgs.subrange(0, n) =~= msgs);
    }
}

/// The views of a list of messages.
pub open spec fn messages_view(v: Seq<Message>) -> Seq<MessageView> {
    Seq::new(v.len(), |i: int| v[i]@)
}

/// The views of a list of envelopes.
pub open spec fn envelopes_view(v: Seq<RaftMessage>) -> Seq<RaftMessageView> {
    Seq::new(v.len(), |i: int| v[i]@)
}

/// The writes that append `entries` to the log of region `region_id`.
pub open spec fn log_writes(region_id: u64, entries: Seq<LogEntry>) -> Seq<WriteOpView> {
    Seq::new(
        entries.len(),
        |i: int|
            WriteOpView::Put {
                cf: CfName::Default,
                key: spec_raft_log_key(region_id, entries[i].index),
                value: entries[i].data@,
            },
    )
}

/// What persisting a ready leaves of a peer's storage, the writes that
/// persist it, and the change of region if a snapshot came; or the refusal
/// of a ready that would put the log positions out of order.
///
/// A snapshot replaces the region and puts all positions at the
/// snapshot's; the peer is then applying it. Entries move the last index to
/// the last of them. A hard state replaces the one held.
pub open spec fn spec_storage_ready(
    s: StorageView,
    region_id: u64,
    snapshot: Option<SnapshotMeta>,
    entries: Seq<LogEntry>,
    hs: Option<HardState>,
) -> Result<(StorageView, Seq<WriteOpView>, Option<(RegionView, RegionView)>), ErrorKind> {
    let s1 = match snapshot {
        None => s,
        Some(snap) => StorageView {
            region: snap.region@,
            raft_state: RaftLocalState {
                hard_state: HardState {
                    commit: if s.raft_state.hard_state.commit < snap.index {
                        snap.index
                    } else {
                        s.raft_state.hard_state.commit
                    },
                    ..s.raft_state.hard_state
                },
                last_index: snap.index,
            },
            apply_state: RaftApplyState {
                applied_index: snap.index,
                truncated_state: RaftTruncatedState { index: snap.index, term: snap.term },
            },
            snap_state: SnapState::Applying,
        },
    };
    let s2 = if entries.len() > 0 {
        StorageView {
            raft_state: RaftLocalState { last_index: entries.last().index, ..s1.raft_state },
            ..s1
        }
    } else {
        s1
    };
    let s3 = match hs {
        None => s2,
        Some(hs) => StorageView {
            raft_state: RaftLocalState { hard_state: hs, ..s2.raft_state },
            ..s2
        },
    };
    if !view_ordered(s3) || (snapshot matches Some(snap) && snap.region.id != region_id) {
        Err(ErrorKind::Other { reason: Reason::IndexOutOfRange })
    } else {
        Ok(
            (
                s3,
                (match snapshot {
                    None => Seq::empty(),
                    Some(snap) => seq![
                        WriteOpView::PutRegionState {
                            key: spec_region_state_key(region_id),
                            state: PeerState::Applying,
                            region: snap.region@,
                        },
                        apply_state_write(region_id, s3.apply_state),
                    ],
                }) + log_writes(region_id, entries) + (if s3.raft_state != s.raft_state {
                    seq![
                        WriteOpView::PutRaftState {
                            key: spec_raft_state_key(region_id),
                            state: s3.raft_state,
                        },
                    ]
                } else {
                    Seq::empty()
                }),
                match snapshot {
                    None => None,
                    Some(snap) => Some((s.region, snap.region@)),
                },
            ),
        )
    }
}

impl PeerStorage {
    /// Takes in what a ready asks to persist, and adds the writes that
    /// persist it to `wb`.
    pub fn handle_raft_ready(
        &mut self,
        snapshot: &Option<SnapshotMeta>,
        entries: &Vec<LogEntry>,
        hs: Option<HardState>,
        wb: &mut WriteBatch,
    ) -> (r: Result<Option<ApplySnapResult>, Error>)
        requires
            old(self).wf(),
        ensures
            final(self).wf(),
            final(self).region.id == old(self).region.id,
            match spec_storage_ready(old(self)@, old(self).region.id, *snapshot, entries@, hs) {
                Err(e) => r matches Err(err) && err@ == e && final(self)@ == old(self)@ && final(wb)@ == old(wb)@,
                Ok((s, ops, change)) => r matches Ok(res) && final(self)@ == s && final(wb)@
                    == old(wb)@ + ops && match res {
                    None => change is None,
                    Some(res) => change == Some((res.prev_region@, res.region@)),
                },
            },
    {
        let region_id = self.region.id;
        let mut raft_state = self.raft_state;
        let mut apply_state = self.apply_state;
        if let Some(snap) = snapshot {
            if raft_state.hard_state.commit < snap.index {
                raft_state.hard_state.commit = snap.index;
            }
            raft_state.last_index = snap.index;
            apply_state = RaftApplyState {
                applied_index: snap.index,
                truncated_state: RaftTruncatedState { index: snap.index, term: snap.term },
            };
        }
        if entries.len() > 0 {
            raft_state.last_index = entries[entries.len() - 1].index;
        }
        if let Some(hs) = hs {
            raft_state.hard_state = hs;
        }
        let ordered = apply_state.truncated_state.index <= apply_state.applied_index
            && apply_state.applied_index <= raft_state.hard_state.commit
            && raft_state.hard_state.commit <= raft_state.last_index && raft_state.last_index
            < u64::MAX;
        let same_region = match snapshot {
            Some(snap) => snap.region.id == region_id,
            None => true,
        };
        if !ordered || !same_region {
            return Err(Error::Other { reason: Reason::IndexOutOfRange });
        }
        let ghost ops0 = wb@;
        let mut result: Option<ApplySnapResult> = None;
        if let Some(snap) = snapshot {
            let state = RegionLocalState { state: PeerState::Applying, region: snap.region.clone() };
            wb.push(WriteOp::PutRegionState { key: keys::region_state_key(region_id), state });
            wb.push(WriteOp::PutApplyState { key: keys::apply_state_key(region_id), state: apply_state });
            let prev_region = self.region.clone();
            self.region = snap.region.clone();
            self.snap_state = SnapState::Applying;
            result = Some(ApplySnapResult { prev_region, region: snap.region.clone() });
        }
        let ghost ops1 = wb@;
        let mut i: usize = 0;
        while i < entries.len()
            invariant
                i <= entries@.len(),
                wb@ == ops1 + log_writes(region_id, entries@).subrange(0, i as int),
            decreases entries@.len() - i,
        {
            let e = &entries[i];
            wb.push(
                WriteOp::Put {
                    cf: CfName::Default,
                    key: keys::raft_log_key(region_id, e.index),
                    value: to_vec(e.data.as_slice()),
                },
            );
            i += 1;
            assert(wb@ =~= ops1 + log_writes(region_id, entries@).subrange(0, i as int));
        }
        proof {
            assert(log_writes(region_id, entries@).subrange(0, i as int) =~= log_writes(
                region_id,
                entries@,
            ));
        }
        if raft_state != self.raft_state {
            wb.push(WriteOp::PutRaftState { key: keys::raft_state_key(region_id), state: raft_state });
        }
        self.raft_state = raft_state;
        self.apply_state = apply_state;
        proof {
            let spec = spec_storage_ready(old(self)@, region_id, *snapshot, entries@, hs);
            assert(spec is Ok);
            assert(wb@ =~= old(wb)@ + spec->Ok_0.1);
        }
        Ok(result)
    }
}

/// What handling a ready leaves.
pub struct ReadyOutcome<C> {
    pub peer: PeerView<C>,
    pub cache: Map<u64, metapb::Peer>,
    pub snap: SnapshotView,
    /// The envelopes to send: before the writes are persisted on a leader,
    /// after on any other peer.
    pub messages: Seq<RaftMessageView>,
    pub send_before_persist: bool,
    /// The writes that persist entries, snapshot and hard state, as one.
    pub persist: Seq<WriteOpView>,
    /// The writes of the applied entries, one batch for each.
    pub batches: Seq<Seq<WriteOpView>>,
    pub notifications: Seq<NotificationView<C>>,
    pub conf_changes: Seq<bool>,
    pub exec_results: Seq<ExecResultView>,
    pub apply_snap_result: Option<(RegionView, RegionView)>,
    /// Whether the consensus layer may take the hard state of the ready
    /// when it advances: not while a snapshot is being applied.
    pub keep_hard_state: bool,
    /// Why a committed entry was refused, if one was.
    pub refused: Option<ErrorKind>,
}

/// Handling a ready.
///
/// While the peer is applying a snapshot, the committed entries, the
/// snapshot and the hard state of the ready are left out: they come again
/// once the snapshot is applied. A leader sends before it persists, any
/// other peer after. Then entries, snapshot and hard state are persisted
/// as one, and the committed entries are applied in order.
///
/// A ready whose messages name an unknown peer, or whose positions are out
/// of order, fails and changes nothing.
pub open spec fn spec_handle_ready<C>(
    m: PeerView<C>,
    cache: Map<u64, metapb::Peer>,
    snap: SnapshotView,
    ready: &Ready,
) -> Result<ReadyOutcome<C>, ErrorKind> {
    let applying = m.store.snap_state == SnapState::Applying;
    let snapshot = if applying {
        None
    } else {
        ready.snapshot
    };
    let hs = if applying {
        None
    } else {
        ready.hs
    };
    let committed = if applying {
        Seq::empty()
    } else {
        ready.committed_entries@
    };
    match spec_envelopes(m, cache, messages_view(ready.messages@)) {
        Err(e) => Err(e),
        Ok((messages, cache1)) => match spec_storage_ready(
            m.store,
            m.store.region.id,
            snapshot,
            ready.entries@,
            hs,
        ) {
            Err(e) => Err(e),
            Ok((store, persist, change)) => {
                let out = spec_handle_entries(PeerView { store, ..m }, cache1, snap, committed);
                Ok(
                    ReadyOutcome {
                        peer: out.peer,
                        cache: out.cache,
                        snap: out.snap,
                        messages,
                        send_before_persist: m.raft_group.role == StateRole::Leader,
                        persist,
                        batches: out.batches,
                        notifications: out.notifications,
                        conf_changes: out.conf_changes,
                        exec_results: out.exec_results,
                        apply_snap_result: change,
                        keep_hard_state: !applying,
                        refused: out.refused,
                    },
                )
            },
        },
    }
}

/// Handling a ready keeps the log positions of a peer in order: at every
/// time, what is compacted was applied, what is applied was committed,
/// what is committed is in the log.
pub proof fn lemma_ready_keeps_order<C>(
    m: PeerView<C>,
    cache: Map<u64, metapb::Peer>,
    snap: SnapshotView,
    ready: &Ready,
)
    requires
        view_ordered(m.store),
        spec_handle_ready(m, cache, snap, ready) is Ok,
    ensures
        ({
            let s = spec_handle_ready(m, cache, snap, ready)->Ok_0.peer.store;
            &&& s.apply_state.truncated_state.index <= s.apply_state.applied_index
            &&& s.apply_state.applied_index <= s.raft_state.hard_state.commit
            &&& s.raft_state.hard_state.commit <= s.raft_state.last_index
        }),
{
    let applying = m.store.snap_state == SnapState::Applying;
    let snapshot = if applying {
        None
    } else {
        ready.snapshot
    };
    let hs = if applying {
        None
    } else {
        ready.hs
    };
    let committed = if applying {
        Seq::empty()
    } else {
        ready.committed_entries@
    };
    let env = spec_envelopes(m, cache, messages_view(ready.messages@))->Ok_0;
    let st = spec_storage_ready(m.store, m.store.region.id, snapshot, ready.entries@, hs)->Ok_0;
    crate::raftstore::store::apply::lemma_entries_keep_order(
        PeerView { store: st.0, ..m },
        env.1,
        snap,
        committed,
    );
}

/// What handling a ready hands back.
pub struct ReadyOutput<C> {
    /// The ready's messages in their envelopes, in order.
    pub messages: Vec<RaftMessage>,
    /// Whether the messages go out before the writes are made: those of a
    /// leader do.
    pub send_before_persist: bool,
    /// The writes that persist entries, snapshot and hard state, as one.
    pub persist: WriteBatch,
    /// The writes of the applied entries, one batch for each.
    pub write_batches: Vec<WriteBatch>,
    /// The answers to the clients whose commands were applied or given up.
    pub notifications: Vec<Notification<C>>,
    /// For each committed change of membership, in order, whether it took
    /// effect.
    pub conf_changes: Vec<bool>,
    /// What the applied commands ask of the store.
    pub result: ReadyResult,
    /// Whether the consensus layer may take the hard state of the ready
    /// when it advances: not while a snapshot is being applied.
    pub keep_hard_state: bool,
    /// Why a committed entry was refused, if one was: the entries behind it
    /// were not applied.
    pub refused: Option<Error>,
}

/// What destroying a peer hands back: the answers to the commands that
/// still waited, and the writes that delete the region's data and leave a
/// tombstone.
pub struct Destroyed<C> {
    pub notifications: Vec<Notification<C>>,
    pub write_batch: WriteBatch,
}

/// What destroying a peer hands back, as a mathematical value.
pub struct DestroyedView<C> {
    pub notifications: Seq<NotificationView<C>>,
    pub write_batch: Seq<WriteOpView>,
}

impl<C> View for Destroyed<C> {
    type V = DestroyedView<C>;

    open spec fn view(&self) -> DestroyedView<C> {
        DestroyedView {
            notifications: notifications_view(self.notifications@),
            write_batch: self.write_batch@,
        }
    }
}

/// The view of what may have been destroyed.
pub open spec fn destroyed_view<C>(d: Option<Destroyed<C>>) -> Option<DestroyedView<C>> {
    match d {
        Some(d) => Some(d@),
        None => None,
    }
}

/// The deletes of those of `keys` that lie in `[start, end)`, in the order
/// of `keys`.
pub open spec fn range_deletes(keys: Seq<Seq<u8>>, start: Seq<u8>, end: Seq<u8>) -> Seq<
    WriteOpView,
>
    decreases keys.len(),
{
    if keys.len() == 0 {
        Seq::empty()
    } else {
        let rest = range_deletes(keys.drop_last(), start, end);
        if lex_le(start, keys.last()) && lex_lt(keys.last(), end) {
            rest.push(WriteOpView::Delete { cf: CfName::Default, key: keys.last() })
        } else {
            rest
        }
    }
}

/// The answers that tell the clients of `cmds` that the region is gone.
pub open spec fn removed_notifications<C>(cmds: Seq<PendingCmd<C>>, region_id: u64) -> Seq<
    NotificationView<C>,
> {
    Seq::new(
        cmds.len(),
        |i: int|
            NotificationView {
                cb: cmds[i].cb,
                resp: region_removed_response(region_id, cmds[i].uuid),
            },
    )
}

/// What destroying the peer `m` hands back, where `keys` are the keys that
/// the engine holds in its default family: every command that waits is
/// answered that the region is gone, first the data commands in order,
/// then the change of membership; every stored user key in the range of
/// the region is deleted; and the region is recorded as a tombstone.
pub open spec fn spec_destroyed<C>(m: PeerView<C>, keys: Seq<Seq<u8>>) -> DestroyedView<C> {
    DestroyedView {
        notifications: removed_notifications(
            m.normals + crate::raftstore::store::apply::option_seq(m.conf_change),
            m.region_id,
        ),
        write_batch: range_deletes(
            keys,
            spec_data_key(m.store.region.start_key),
            spec_data_end_key(m.store.region.end_key),
        ).push(
            WriteOpView::PutRegionState {
                key: spec_region_state_key(m.region_id),
                state: PeerState::Tombstone,
                region: m.store.region,
            },
        ),
    }
}

impl<C> Peer<C> {
    /// Builds the envelope in which the consensus message `msg` travels.
    pub fn send_raft_message(&self, cache: &mut PeerCache, msg: &Message) -> (r: Result<
        RaftMessage,
        Error,
    >)
        ensures
            match spec_send_raft_message(self@, old(cache)@, msg@) {
                Err(e) => r matches Err(err) && err@ == e,
                Ok((envelope, c)) => r matches Ok(sent) && sent@ == envelope && final(cache)@ == c,
            },
    {
        let from_peer = match self.get_peer_from_cache(cache, msg.from) {
            Some(p) => p,
            None => {
                return Err(Error::Other { reason: Reason::UnknownPeer });
            },
        };
        let to_peer = match self.get_peer_from_cache(cache, msg.to) {
            Some(p) => p,
            None => {
                return Err(Error::Other { reason: Reason::UnknownPeer });
            },
        };
        Ok(
            RaftMessage {
                region_id: self.region_id,
                from_peer,
                to_peer,
                message: Some(msg.clone()),
                // set current epoch
                region_epoch: Some(self.store.region.region_epoch),
                is_tombstone: false,
            },
        )
    }

    /// Builds the envelopes for `msgs`, first to last.
    pub fn send(&self, cache: &mut PeerCache, msgs: &Vec<Message>) -> (r: Result<
        Vec<RaftMessage>,
        Error,
    >)
        ensures
            match spec_envelopes(self@, old(cache)@, messages_view(msgs@)) {
                Err(e) => r matches Err(err) && err@ == e,
                Ok((envelopes, c)) => r matches Ok(sent) && envelopes_view(sent@) == envelopes
                    && final(cache)@ == c,
            },
    {
        let mut sent: Vec<RaftMessage> = Vec::new();
        let ghost all = messages_view(msgs@);
        let mut i: usize = 0;
        proof {
            assert(envelopes_view(sent@) =~= Seq::<RaftMessageView>::empty());
            assert(all.subrange(0, 0) =~= Seq::<MessageView>::empty());
        }
        while i < msgs.len()
            invariant
                i <= msgs@.len(),
                all == messages_view(msgs@),
                spec_envelopes(self@, old(cache)@, all.subrange(0, i as int)) matches Ok(
                    (envelopes, c),
                ) && envelopes_view(sent@) == envelopes && cache@ == c,
            decreases msgs@.len() - i,
        {
            proof {
                assert(all.subrange(0, i + 1).drop_last() =~= all.subrange(0, i as int));
                assert(all.subrange(0, i + 1).last() == msgs@[i as int]@);
            }
            let ghost before = envelopes_view(sent@);
            match self.send_raft_message(cache, &msgs[i]) {
                Err(e) => {
                    proof {
                        lemma_envelope_failure(self@, old(cache)@, all, i + 1);
                    }
                    return Err(e);
                },
                Ok(envelope) => {
                    sent.push(envelope);
                    proof {
                        assert(envelopes_view(sent@) =~= before.push(envelope@));
                    }
                },
            }
            i += 1;
        }
        proof {
            assert(all.subrange(0, i as int) =~= all);
        }
        Ok(sent)
    }

    /// Handles a ready of the consensus layer. `snap` is the engine as the
    /// first committed entry meets it.
    pub fn handle_raft_ready(
        &mut self,
        cache: &mut PeerCache,
        snap: &mut Snapshot,
        ready: &Ready,
    ) -> (r: Result<ReadyOutput<C>, Error>)
        requires
            old(self).wf(),
            old(snap).wf(),
        ensures
            final(self).wf(),
            final(snap).wf(),
            match spec_handle_ready(old(self)@, old(cache)@, old(snap)@, ready) {
                Err(e) => r matches Err(err) && err@ == e && final(self)@ == old(self)@ && final(snap)@ == old(snap)@,
                Ok(out) => r matches Ok(done) && error_view(done.refused) == out.refused && final(self)@ == out.peer && final(cache)@
                    == out.cache && final(snap)@ == out.snap && envelopes_view(done.messages@)
                    == out.messages && done.send_before_persist == out.send_before_persist
                    && done.persist@ == out.persist && batches_view(done.write_batches@)
                    == out.batches && notifications_view(done.notifications@)
                    == out.notifications && done.conf_changes@ == out.conf_changes
                    && exec_results_view(done.result.exec_results@) == out.exec_results
                    && done.keep_hard_state == out.keep_hard_state && match done.result.apply_snap_result {
                    None => out.apply_snap_result is None,
                    Some(res) => out.apply_snap_result == Some((res.prev_region@, res.region@)),
                },
            },
    {
        let is_applying = self.store.is_applying_snap();
        // The leader can write to disk and replicate to the followers concurrently
        // For more details, check raft thesis 10.2.1
        let send_before_persist = self.is_leader();
        let messages = match self.send(cache, &ready.messages) {
            Err(e) => {
                return Err(e);
            },
            Ok(m) => m,
        };
        let mut persist = WriteBatch::new();
        let none_snapshot: Option<SnapshotMeta> = None;
        let no_entries: Vec<Entry> = Vec::new();
        let apply_result = if is_applying {
            // skip apply and snapshot
            self.store.handle_raft_ready(&none_snapshot, &ready.entries, None, &mut persist)
        } else {
            self.store.handle_raft_ready(&ready.snapshot, &ready.entries, ready.hs, &mut persist)
        };
        let apply_result = match apply_result {
            Err(e) => {
                return Err(e);
            },
            Ok(res) => res,
        };
        proof {
            assert(Seq::<WriteOpView>::empty() + persist@ =~= persist@);
        }
        let committed = if is_applying {
            self.handle_raft_commit_entries(cache, snap, &no_entries)
        } else {
            self.handle_raft_commit_entries(cache, snap, &ready.committed_entries)
        };
        let Committed { exec_results, write_batches, notifications, conf_changes, refused } =
            committed;
        Ok(
            ReadyOutput {
                messages,
                send_before_persist,
                persist,
                write_batches,
                notifications,
                conf_changes,
                result: ReadyResult { exec_results, apply_snap_result: apply_result },
                // remove hard state so raft won't change the apply index.
                keep_hard_state: !is_applying,
                refused,
            },
        )
    }

    /// Destroys the peer: every command that still waits is told that the
    /// region is gone, first the data commands in order, then the change of
    /// membership; every stored user key of the region that `snap` holds
    /// is deleted, and the region is persisted as a tombstone.
    pub fn destroy(&mut self, snap: &Snapshot) -> (r: Destroyed<C>)
        requires
            old(self).wf(),
            snap.wf(),
        ensures
            final(self).wf(),
            final(self)@ == (PeerView {
                normals: Seq::empty(),
                conf_change: None,
                ..old(self)@
            }),
            r@ == spec_destroyed(old(self)@, snap.keys(CfName::Default)),
    {
        // Delete all data in this peer.
        let region_id = self.region_id;
        let mut notifications: Vec<Notification<C>> = Vec::new();
        let ghost cmds = self@.normals;
        let ghost conf = self@.conf_change;
        let mut queue = PendingCmdQueue::new();
        std::mem::swap(&mut queue, &mut self.pending_cmds);
        let PendingCmdQueue { mut normals, conf_change, uuids } = queue;
        proof {
            assert(notifications_view(notifications@) =~= removed_notifications(
                cmds.subrange(0, 0),
                region_id,
            ));
        }
        let mut taken: usize = 0;
        let total = normals.len();
        while taken < total
            invariant
                taken <= total,
                total == cmds.len(),
                normals@ == cmds.skip(taken as int),
                notifications_view(notifications@) == removed_notifications(
                    cmds.subrange(0, taken as int),
                    region_id,
                ),
            decreases total - taken,
        {
            let ghost before = notifications_view(notifications@);
            assert(normals@[0] == cmds[taken as int]);
            let cmd = normals.pop_front().unwrap();
            assert(normals@ =~= cmds.skip(taken + 1));
            let n = notify_region_removed(region_id, cmd);
            notifications.push(n);
            taken += 1;
            proof {
                assert(notifications_view(notifications@) =~= before.push(n@));
                assert(notifications_view(notifications@) =~= removed_notifications(
                    cmds.subrange(0, taken as int),
                    region_id,
                ));
            }
        }
        proof {
            assert(cmds.subrange(0, taken as int) =~= cmds);
        }
        let ghost before = notifications_view(notifications@);
        if let Some(cmd) = conf_change {
            let n = notify_region_removed(region_id, cmd);
            notifications.push(n);
            proof {
                assert(notifications_view(notifications@) =~= before.push(n@));
                assert(notifications_view(notifications@) =~= removed_notifications(
                    cmds + seq![cmd],
                    region_id,
                ));
            }
        } else {
            proof {
                assert(cmds + Seq::<PendingCmd<C>>::empty() =~= cmds);
            }
        }

        let mut wb = WriteBatch::new();
        let start = keys::enc_start_key(&self.store.region);
        let end = keys::enc_end_key(&self.store.region);
        let data = snap.cf(CfName::Default);
        let n = data.len();
        let mut i: usize = 0;
        proof {
            assert(data.keys().subrange(0, 0) =~= Seq::<Seq<u8>>::empty());
        }
        while i < n
            invariant
                i <= n,
                n == data.keys().len(),
                wb@ == range_deletes(data.keys().subrange(0, i as int), start@, end@),
            decreases n - i,
        {
            let key = data.key_at(i);
            proof {
                assert(data.keys().subrange(0, i + 1).drop_last() =~= data.keys().subrange(
                    0,
                    i as int,
                ));
                assert(data.keys().subrange(0, i + 1).last() == key@);
            }
            if bytes_le(start.as_slice(), key.as_slice()) && bytes_lt(
                key.as_slice(),
                end.as_slice(),
            ) {
                wb.push(WriteOp::Delete { cf: CfName::Default, key });
            }
            i += 1;
        }
        proof {
            assert(data.keys().subrange(0, i as int) =~= data.keys());
        }
        let local_state = RegionLocalState {
            state: PeerState::Tombstone,
            region: self.store.region.clone(),
        };
        wb.push(WriteOp::PutRegionState { key: keys::region_state_key(region_id), state: local_state });
        Destroyed { notifications, write_batch: wb }
    }
}

} // verus!
