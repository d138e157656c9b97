//! Building the responses to commands.

use crate::proto::raft_cmdpb::{
    RaftCmdResponse, RaftCmdResponseView, RaftResponseHeader, ResponseBody,
};
use crate::raftstore::errors::Error;
use vstd::prelude::*;

verus! {

/// The response that says nothing yet.
pub fn new_response() -> (resp: RaftCmdResponse)
    ensures
        resp@ == RaftCmdResponseView::empty(),
{
    RaftCmdResponse {
        header: RaftResponseHeader { error: None, uuid: None, current_term: 0 },
        body: ResponseBody::Nothing,
    }
}

/// Marks `resp` as the answer to the command `uuid`.
pub fn bind_uuid(resp: &mut RaftCmdResponse, uuid: u128)
    ensures
        final(resp)@ == old(resp)@.with_uuid(uuid),
{
    resp.header.uuid = Some(uuid);
}

/// Stamps `resp` with the term `term`.
pub fn bind_term(resp: &mut RaftCmdResponse, term: u64)
    ensures
        final(resp)@ == old(resp)@.with_term(term),
{
    resp.header.current_term = term;
}

/// Makes `resp` report the failure `err`.
pub fn bind_error(resp: &mut RaftCmdResponse, err: Error)
    ensures
        final(resp)@ == old(resp)@.with_error(err@),
{
    resp.header.error = Some(err);
}

/// The response that only reports the failure `err`.
pub fn new_error(err: Error) -> (resp: RaftCmdResponse)
    ensures
        resp@ == RaftCmdResponseView::of_error(err@),
{
    let mut resp = new_response();
    bind_error(&mut resp, err);
    resp
}

/// The response that reports the failure `err` to the command `uuid` at
/// term `term`.
pub fn err_resp(err: Error, uuid: u128, term: u64) -> (resp: RaftCmdResponse)
    ensures
        resp@ == RaftCmdResponseView::of_error(err@).with_term(term).with_uuid(uuid),
{
    let mut resp = new_error(err);
    bind_term(&mut resp, term);
    bind_uuid(&mut resp, uuid);
    resp
}

} // verus!
