//! What a peer does with a command that a client proposes.

use crate::proto::metapb;
use crate::proto::raft_cmdpb::{
    AdminRequest, AdminResponse, AdminResponseView, CmdBody, RaftCmdRequest, RaftCmdResponse,
    RaftCmdResponseView, RaftResponseHeader, ResponseBody, ResponseBodyView,
};
use crate::proto::raftpb::ConfChangeType;
use crate::raftstore::errors::{Error, ErrorKind, Reason};
use crate::raftstore::store::cmd_resp;
use crate::raftstore::store::peer::{
    not_leader_response, spec_cache_lookup, spec_check_epoch, transfer_leader_allowed,
    Notification, NotificationView, Peer, PeerCache, PeerView,
};
use crate::raftstore::store::pending::{is_pending, PendingCmd};
use vstd::prelude::*;

verus! {

broadcast use vstd::std_specs::hash::group_hash_axioms;

/// What is to be done with a proposed command.
#[derive(Debug)]
pub enum ProposeOutcome<C> {
    /// Answer the client; nothing goes to the log.
    Respond { notification: Notification<C> },
    /// Hand leadership to `transferee`, if there is one, and answer the
    /// client. A transfer is advice: it is answered with success whether or
    /// not it is taken.
    TransferLeader { transferee: Option<u64>, notification: Notification<C> },
    /// Propose a change of membership to the consensus layer. `stale` is the
    /// answer to a change that waited from an earlier term of leadership.
    ConfChange {
        change_type: ConfChangeType,
        node_id: u64,
        cmd: PendingCmd<C>,
        err_resp: RaftCmdResponse,
        stale: Option<Notification<C>>,
    },
    /// Propose the command to the consensus layer as a log entry.
    Normal { cmd: PendingCmd<C>, err_resp: RaftCmdResponse },
}

/// A `ProposeOutcome` as a mathematical value.
pub enum ProposeOutcomeView<C> {
    Respond { notification: NotificationView<C> },
    TransferLeader { transferee: Option<u64>, notification: NotificationView<C> },
    ConfChange {
        change_type: ConfChangeType,
        node_id: u64,
        cmd: PendingCmd<C>,
        err_resp: RaftCmdResponseView,
        stale: Option<NotificationView<C>>,
    },
    Normal { cmd: PendingCmd<C>, err_resp: RaftCmdResponseView },
}

impl<C> View for ProposeOutcome<C> {
    type V = ProposeOutcomeView<C>;

    open spec fn view(&self) -> ProposeOutcomeView<C> {
        match *self {
            ProposeOutcome::Respond { notification } => ProposeOutcomeView::Respond {
                notification: notification@,
            },
            ProposeOutcome::TransferLeader {
                transferee,
                notification,
            } => ProposeOutcomeView::TransferLeader { transferee, notification: notification@ },
            ProposeOutcome::ConfChange {
                change_type,
                node_id,
                cmd,
                err_resp,
                stale,
            } => ProposeOutcomeView::ConfChange {
                change_type,
                node_id,
                cmd,
                err_resp: err_resp@,
                stale: match stale {
                    Some(n) => Some(n@),
                    None => None,
                },
            },
            ProposeOutcome::Normal { cmd, err_resp } => ProposeOutcomeView::Normal {
                cmd,
                err_resp: err_resp@,
            },
        }
    }
}

/// The answer to a transfer of leadership.
pub open spec fn transfer_leader_response() -> RaftCmdResponseView {
    RaftCmdResponseView {
        body: ResponseBodyView::Admin(AdminResponseView::TransferLeader),
        ..RaftCmdResponseView::empty()
    }
}

/// What a peer decides about a proposed command, and what the decision
/// leaves of the peer and the cache.
///
/// A command whose uuid already waits is answered with an error, and so is
/// a command with a stale epoch. A transfer of leadership is never put
/// in the log: it is carried out if it is allowed, and answered at once. A
/// change of membership fails while another is in the log; a change that
/// still waits from before is told that leadership may have changed.
pub open spec fn spec_propose<C>(
    m: PeerView<C>,
    cache: Map<u64, metapb::Peer>,
    cmd: PendingCmd<C>,
    req: &RaftCmdRequest,
    err_resp: RaftCmdResponseView,
) -> (Result<ProposeOutcomeView<C>, ErrorKind>, PeerView<C>, Map<u64, metapb::Peer>) {
    if is_pending(m.normals, m.conf_change, cmd.uuid) {
        (
            Ok(
                ProposeOutcomeView::Respond {
                    notification: NotificationView {
                        cb: cmd.cb,
                        resp: err_resp.with_error(
                            ErrorKind::Other { reason: Reason::DuplicatedUuid },
                        ),
                    },
                },
            ),
            m,
            cache,
        )
    } else {
        match spec_check_epoch(m.store.region.region_epoch, req) {
            Err(e) => (
                Ok(
                    ProposeOutcomeView::Respond {
                        notification: NotificationView { cb: cmd.cb, resp: err_resp.with_error(e) },
                    },
                ),
                m,
                cache,
            ),
            Ok(()) => match req.body {
                CmdBody::Admin(AdminRequest::TransferLeader { peer }) => (
                    Ok(
                        ProposeOutcomeView::TransferLeader {
                            transferee: if transfer_leader_allowed(
                                m.raft_group.progress,
                                m.store.raft_state.last_index,
                                peer.id,
                            ) {
                                Some(peer.id)
                            } else {
                                None
                            },
                            notification: NotificationView {
                                cb: cmd.cb,
                                resp: transfer_leader_response(),
                            },
                        },
                    ),
                    m,
                    cache,
                ),
                CmdBody::Admin(AdminRequest::ChangePeer { change_type, peer }) => {
                    if m.raft_group.pending_conf {
                        (Err(ErrorKind::Other { reason: Reason::PendingConfChange }), m, cache)
                    } else {
                        let lookup = spec_cache_lookup(
                            cache,
                            m.store.region.peers,
                            m.raft_group.leader_id,
                        );
                        (
                            Ok(
                                ProposeOutcomeView::ConfChange {
                                    change_type,
                                    node_id: peer.id,
                                    cmd,
                                    err_resp,
                                    stale: match m.conf_change {
                                        Some(c) => Some(
                                            NotificationView {
                                                cb: c.cb,
                                                resp: not_leader_response(
                                                    m.region_id,
                                                    lookup.0,
                                                    c.uuid,
                                                    m.raft_group.term,
                                                ),
                                            },
                                        ),
                                        None => None,
                                    },
                                },
                            ),
                            PeerView { conf_change: None, ..m },
                            if m.conf_change is Some {
                                lookup.1
                            } else {
                                cache
                            },
                        )
                    }
                },
                _ => (Ok(ProposeOutcomeView::Normal { cmd, err_resp }), m, cache),
            },
        }
    }
}

/// The view of a decision about a proposal.
pub open spec fn propose_result_view<C>(r: Result<ProposeOutcome<C>, Error>) -> Result<
    ProposeOutcomeView<C>,
    ErrorKind,
> {
    match r {
        Ok(o) => Ok(o@),
        Err(e) => Err(e@),
    }
}

/// What the answer of the consensus layer to a proposal leaves: a command
/// that was taken waits for its entry; one that was refused is answered
/// with the error; so is one whose uuid has come to wait in the meantime.
pub open spec fn spec_on_proposed<C>(
    m: PeerView<C>,
    cmd: PendingCmd<C>,
    is_conf_change: bool,
    refused: Option<ErrorKind>,
    err_resp: RaftCmdResponseView,
) -> (Option<NotificationView<C>>, PeerView<C>) {
    match refused {
        Some(e) => (Some(NotificationView { cb: cmd.cb, resp: err_resp.with_error(e) }), m),
        None => if is_pending(m.normals, m.conf_change, cmd.uuid) || (is_conf_change
            && m.conf_change is Some) {
            (
                Some(
                    NotificationView {
                        cb: cmd.cb,
                        resp: err_resp.with_error(
                            ErrorKind::Other { reason: Reason::DuplicatedUuid },
                        ),
                    },
                ),
                m,
            )
        } else if is_conf_change {
            (None, PeerView { conf_change: Some(cmd), ..m })
        } else {
            (None, PeerView { normals: m.normals.push(cmd), ..m })
        },
    }
}

/// Leadership is transferred only where the transfer is allowed: never
/// while a peer is being sent a snapshot, never to a target whose log lags
/// too far behind.
pub proof fn lemma_propose_transfers_only_if_allowed<C>(
    m: PeerView<C>,
    cache: Map<u64, metapb::Peer>,
    cmd: PendingCmd<C>,
    req: &RaftCmdRequest,
    err_resp: RaftCmdResponseView,
)
    ensures
        spec_propose(m, cache, cmd, req, err_resp).0 matches Ok(
            ProposeOutcomeView::TransferLeader { transferee: Some(id), .. },
        ) ==> transfer_leader_allowed(
            m.raft_group.progress,
            m.store.raft_state.last_index,
            id,
        ) && !crate::raftstore::store::peer::any_in_snapshot(m.raft_group.progress),
{
}

fn make_transfer_leader_response() -> (resp: RaftCmdResponse)
    ensures
        resp@ == transfer_leader_response(),
{
    RaftCmdResponse {
        header: RaftResponseHeader { error: None, uuid: None, current_term: 0 },
        body: ResponseBody::Admin(AdminResponse::TransferLeader),
    }
}

impl<C> Peer<C> {
    /// Decides what to do with a proposed command. `err_resp` is the
    /// response to build on if the command fails.
    pub fn propose(
        &mut self,
        cache: &mut PeerCache,
        cmd: PendingCmd<C>,
        req: &RaftCmdRequest,
        err_resp: RaftCmdResponse,
    ) -> (r: Result<ProposeOutcome<C>, Error>)
        requires
            old(self).wf(),
        ensures
            final(self).wf(),
            ({
                let out = spec_propose(old(self)@, old(cache)@, cmd, req, err_resp@);
                &&& propose_result_view(r) == out.0
                &&& final(self)@ == out.1
                &&& final(cache)@ == out.2
            }),
    {
        let mut err_resp = err_resp;
        if self.pending_cmds.contains(&cmd.uuid) {
            cmd_resp::bind_error(&mut err_resp, Error::Other { reason: Reason::DuplicatedUuid });
            return Ok(
                ProposeOutcome::Respond { notification: Notification { cb: cmd.cb, resp: err_resp } },
            );
        }
        if let Err(e) = self.check_epoch(req) {
            cmd_resp::bind_error(&mut err_resp, e);
            return Ok(
                ProposeOutcome::Respond { notification: Notification { cb: cmd.cb, resp: err_resp } },
            );
        }
        match &req.body {
            CmdBody::Admin(AdminRequest::TransferLeader { peer }) => {
                let transferee = if self.is_transfer_leader_allowed(peer) {
                    Some(peer.id)
                } else {
                    None
                };
                // transfer leader command doesn't need to replicate log and apply, so we
                // return immediately. Note that this command may fail, we can view it just as an advice
                Ok(
                    ProposeOutcome::TransferLeader {
                        transferee,
                        notification: Notification {
                            cb: cmd.cb,
                            resp: make_transfer_leader_response(),
                        },
                    },
                )
            },
            CmdBody::Admin(AdminRequest::ChangePeer { change_type, peer }) => {
                if self.raft_group.pending_conf {
                    return Err(Error::Other { reason: Reason::PendingConfChange });
                }
                let stale = match self.pending_cmds.take_conf_change() {
                    // if it loses leader ship before confchange is replicated, there may be
                    // a stale pending conf change before next conf change is applied. If it
                    // becomes leader again with the stale pending conf change, will enter
                    // this block, so we notify leadership may have changed.
                    Some(stale) => Some(self.notify_not_leader(cache, stale)),
                    None => None,
                };
                Ok(
                    ProposeOutcome::ConfChange {
                        change_type: *change_type,
                        node_id: peer.id,
                        cmd,
                        err_resp,
                        stale,
                    },
                )
            },
            _ => Ok(ProposeOutcome::Normal { cmd, err_resp }),
        }
    }

    /// Takes in the answer of the consensus layer to a proposal: `refused`
    /// is the error with which it refused the proposal, if it did.
    pub fn on_proposed(
        &mut self,
        cmd: PendingCmd<C>,
        is_conf_change: bool,
        refused: Option<Error>,
        err_resp: RaftCmdResponse,
    ) -> (r: Option<Notification<C>>)
        requires
            old(self).wf(),
        ensures
            final(self).wf(),
            ({
                let out = spec_on_proposed(
                    old(self)@,
                    cmd,
                    is_conf_change,
                    match refused {
                        Some(e) => Some(e@),
                        None => None,
                    },
                    err_resp@,
                );
                &&& match r {
                    Some(n) => out.0 == Some(n@),
                    None => out.0 is None,
                }
                &&& final(self)@ == out.1
            }),
    {
        let mut err_resp = err_resp;
        if let Some(e) = refused {
            cmd_resp::bind_error(&mut err_resp, e);
            return Some(Notification { cb: cmd.cb, resp: err_resp });
        }
        if self.pending_cmds.contains(&cmd.uuid) || (is_conf_change
            && self.pending_cmds.conf_change.is_some()) {
            cmd_resp::bind_error(&mut err_resp, Error::Other { reason: Reason::DuplicatedUuid });
            return Some(Notification { cb: cmd.cb, resp: err_resp });
        }
        if is_conf_change {
            self.pending_cmds.set_conf_change(cmd);
        } else {
            self.pending_cmds.append_normal(cmd);
        }
        None
    }
}

} // verus!
