//! Client commands to a region and the responses to them.

use crate::proto::metapb::{Peer, Region, RegionEpoch, RegionView};
use crate::proto::raftpb::ConfChangeType;
use crate::raftstore::errors::{Error, ErrorKind};
use vstd::prelude::*;

verus! {

/// The column families of the engine.
#[derive(Clone, Copy, Debug, PartialEq, Eq, Structural)]
pub enum CfName {
    /// Data and versioned pages.
    Default,
    /// The current locks.
    Lock,
}

/// The kind of a data command.
#[derive(Clone, Copy, Debug, PartialEq, Eq, Structural)]
pub enum CmdType {
    Invalid,
    Get,
    Seek,
    Put,
    Delete,
    Snap,
}

/// The kind of an administration command.
#[derive(Clone, Copy, Debug, PartialEq, Eq, Structural)]
pub enum AdminCmdType {
    InvalidAdmin,
    ChangePeer,
    Split,
    CompactLog,
    TransferLeader,
}

/// The kind of a status command.
#[derive(Clone, Copy, Debug, PartialEq, Eq, Structural)]
pub enum StatusCmdType {
    InvalidStatus,
    RegionLeader,
    RegionDetail,
}

/// One data command on a raw key of the region.
#[derive(Debug, PartialEq, Eq)]
pub enum Request {
    Invalid,
    Get { cf: Option<CfName>, key: Vec<u8> },
    Seek { key: Vec<u8> },
    Put { cf: Option<CfName>, key: Vec<u8>, value: Vec<u8> },
    Delete { cf: Option<CfName>, key: Vec<u8> },
    Snap,
}

/// One administration command.
#[derive(Debug, PartialEq, Eq)]
pub enum AdminRequest {
    InvalidAdmin,
    ChangePeer { change_type: ConfChangeType, peer: Peer },
    Split { split_key: Option<Vec<u8>>, new_region_id: u64, new_peer_ids: Vec<u64> },
    CompactLog { compact_index: u64 },
    TransferLeader { peer: Peer },
}

/// One status command.
#[derive(Clone, Copy, Debug, PartialEq, Eq, Structural)]
pub enum StatusRequest {
    InvalidStatus,
    RegionLeader,
    RegionDetail,
}

/// Where a command is meant to go, and how it is told apart from others.
/// `uuid` holds the sixteen bytes of the command's uuid.
#[derive(Debug, PartialEq, Eq)]
pub struct RaftRequestHeader {
    pub region_id: u64,
    pub peer: Peer,
    pub region_epoch: Option<RegionEpoch>,
    pub uuid: Vec<u8>,
}

/// The number whose big-endian bytes are `b`.
pub open spec fn be_u128(b: Seq<u8>) -> u128
    decreases b.len(),
{
    if b.len() == 0 {
        0
    } else {
        (be_u128(b.drop_last()) * 256 + b.last()) as u128
    }
}

/// The uuid that `b` holds: sixteen bytes are a uuid, read as one
/// big-endian number; anything else is none.
pub open spec fn spec_uuid_from_bytes(b: Seq<u8>) -> Option<u128> {
    if b.len() == 16 {
        Some(be_u128(b))
    } else {
        None
    }
}

/// What a command asks for. A status command is answered by the store; an
/// administration command or a list of data commands goes to the region.
#[derive(Debug, PartialEq, Eq)]
pub enum CmdBody {
    Requests(Vec<Request>),
    Admin(AdminRequest),
    Status(StatusRequest),
}

/// A command to a region.
#[derive(Debug, PartialEq, Eq)]
pub struct RaftCmdRequest {
    pub header: RaftRequestHeader,
    pub body: CmdBody,
}

/// The answer to one data command.
#[derive(Debug, PartialEq, Eq)]
pub enum Response {
    Get { value: Option<Vec<u8>> },
    Seek { pair: Option<(Vec<u8>, Vec<u8>)> },
    Put,
    Delete,
    Snap { region: Region },
}

/// The answer to an administration command.
#[derive(Debug, PartialEq, Eq)]
pub enum AdminResponse {
    ChangePeer { region: Region },
    Split { left: Region, right: Region },
    CompactLog,
    TransferLeader,
}

/// The answer to a status command.
#[derive(Debug, PartialEq, Eq)]
pub enum StatusResponse {
    RegionLeader { leader: Option<Peer> },
    RegionDetail { region: Region, leader: Option<Peer> },
}

/// What came of a command: the error, if it failed, and the command it
/// answers.
#[derive(Debug, PartialEq, Eq)]
pub struct RaftResponseHeader {
    pub error: Option<Error>,
    pub uuid: Option<u128>,
    pub current_term: u64,
}

/// What a response carries besides its header.
#[derive(Debug, PartialEq, Eq)]
pub enum ResponseBody {
    Nothing,
    Responses(Vec<Response>),
    Admin(AdminResponse),
    Status(StatusResponse),
}

/// The response to a command.
#[derive(Debug, PartialEq, Eq)]
pub struct RaftCmdResponse {
    pub header: RaftResponseHeader,
    pub body: ResponseBody,
}

/// The answer to one data command, as a mathematical value.
pub enum ResponseView {
    Get { value: Option<Seq<u8>> },
    Seek { pair: Option<(Seq<u8>, Seq<u8>)> },
    Put,
    Delete,
    Snap { region: RegionView },
}

impl View for Response {
    type V = ResponseView;

    open spec fn view(&self) -> ResponseView {
        match *self {
            Response::Get { value } => ResponseView::Get {
                value: match value {
                    Some(v) => Some(v@),
                    None => None,
                },
            },
            Response::Seek { pair } => ResponseView::Seek {
                pair: match pair {
                    Some((k, v)) => Some((k@, v@)),
                    None => None,
                },
            },
            Response::Put => ResponseView::Put,
            Response::Delete => ResponseView::Delete,
            Response::Snap { region } => ResponseView::Snap { region: region@ },
        }
    }
}

/// The answer to an administration command, as a mathematical value.
pub enum AdminResponseView {
    ChangePeer { region: RegionView },
    Split { left: RegionView, right: RegionView },
    CompactLog,
    TransferLeader,
}

impl View for AdminResponse {
    type V = AdminResponseView;

    open spec fn view(&self) -> AdminResponseView {
        match *self {
            AdminResponse::ChangePeer { region } => AdminResponseView::ChangePeer {
                region: region@,
            },
            AdminResponse::Split { left, right } => AdminResponseView::Split {
                left: left@,
                right: right@,
            },
            AdminResponse::CompactLog => AdminResponseView::CompactLog,
            AdminResponse::TransferLeader => AdminResponseView::TransferLeader,
        }
    }
}

/// The answer to a status command, as a mathematical value.
pub enum StatusResponseView {
    RegionLeader { leader: Option<Peer> },
    RegionDetail { region: RegionView, leader: Option<Peer> },
}

impl View for StatusResponse {
    type V = StatusResponseView;

    open spec fn view(&self) -> StatusResponseView {
        match *self {
            StatusResponse::RegionLeader { leader } => StatusResponseView::RegionLeader { leader },
            StatusResponse::RegionDetail { region, leader } => StatusResponseView::RegionDetail {
                region: region@,
                leader,
            },
        }
    }
}

/// A response header as a mathematical value.
pub struct RaftResponseHeaderView {
    pub error: Option<ErrorKind>,
    pub uuid: Option<u128>,
    pub current_term: u64,
}

impl View for RaftResponseHeader {
    type V = RaftResponseHeaderView;

    open spec fn view(&self) -> RaftResponseHeaderView {
        RaftResponseHeaderView {
            error: match self.error {
                Some(e) => Some(e@),
                None => None,
            },
            uuid: self.uuid,
            current_term: self.current_term,
        }
    }
}

/// What a response carries besides its header, as a mathematical value.
pub enum ResponseBodyView {
    Nothing,
    Responses(Seq<ResponseView>),
    Admin(AdminResponseView),
    Status(StatusResponseView),
}

impl View for ResponseBody {
    type V = ResponseBodyView;

    open spec fn view(&self) -> ResponseBodyView {
        match *self {
            ResponseBody::Nothing => ResponseBodyView::Nothing,
            ResponseBody::Responses(rs) => ResponseBodyView::Responses(
                Seq::new(rs@.len(), |i: int| rs@[i]@),
            ),
            ResponseBody::Admin(a) => ResponseBodyView::Admin(a@),
            ResponseBody::Status(s) => ResponseBodyView::Status(s@),
        }
    }
}

/// A response as a mathematical value.
pub struct RaftCmdResponseView {
    pub header: RaftResponseHeaderView,
    pub body: ResponseBodyView,
}

impl View for RaftCmdResponse {
    type V = RaftCmdResponseView;

    open spec fn view(&self) -> RaftCmdResponseView {
        RaftCmdResponseView { header: self.header@, body: self.body@ }
    }
}

impl RaftCmdResponseView {
    /// The response that says nothing yet.
    pub open spec fn empty() -> RaftCmdResponseView {
        RaftCmdResponseView {
            header: RaftResponseHeaderView { error: None, uuid: None, current_term: 0 },
            body: ResponseBodyView::Nothing,
        }
    }

    /// The response that only reports the failure `e`.
    pub open spec fn of_error(e: ErrorKind) -> RaftCmdResponseView {
        RaftCmdResponseView {
            header: RaftResponseHeaderView { error: Some(e), uuid: None, current_term: 0 },
            body: ResponseBodyView::Nothing,
        }
    }

    /// This response, marked as the answer to the command `uuid`.
    pub open spec fn with_uuid(self, uuid: u128) -> RaftCmdResponseView {
        RaftCmdResponseView {
            header: RaftResponseHeaderView { uuid: Some(uuid), ..self.header },
            ..self
        }
    }

    /// This response, stamped with the term `term`.
    pub open spec fn with_term(self, term: u64) -> RaftCmdResponseView {
        RaftCmdResponseView {
            header: RaftResponseHeaderView { current_term: term, ..self.header },
            ..self
        }
    }

    /// This response, reporting the failure `e`.
    pub open spec fn with_error(self, e: ErrorKind) -> RaftCmdResponseView {
        RaftCmdResponseView {
            header: RaftResponseHeaderView { error: Some(e), ..self.header },
            ..self
        }
    }
}

impl RaftCmdRequest {
    /// The uuid of the command, if its header holds one.
    pub open spec fn spec_uuid(&self) -> Option<u128> {
        spec_uuid_from_bytes(self.header.uuid@)
    }

    /// The kind of administration command, if the request is one.
    pub open spec fn admin_cmd_type(&self) -> Option<AdminCmdType> {
        match self.body {
            CmdBody::Admin(AdminRequest::InvalidAdmin) => Some(AdminCmdType::InvalidAdmin),
            CmdBody::Admin(AdminRequest::ChangePeer { .. }) => Some(AdminCmdType::ChangePeer),
            CmdBody::Admin(AdminRequest::Split { .. }) => Some(AdminCmdType::Split),
            CmdBody::Admin(AdminRequest::CompactLog { .. }) => Some(AdminCmdType::CompactLog),
            CmdBody::Admin(AdminRequest::TransferLeader { .. }) => Some(
                AdminCmdType::TransferLeader,
            ),
            _ => None,
        }
    }

    /// Whether the request asks for a change of membership.
    pub open spec fn is_change_peer(&self) -> bool {
        self.admin_cmd_type() == Some(AdminCmdType::ChangePeer)
    }
}

} // verus!
