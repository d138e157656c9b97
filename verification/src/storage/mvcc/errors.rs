//! Why an operation of a transaction fails.

use crate::storage::types::CodecError;
use vstd::prelude::*;

verus! {

/// Why an operation of a transaction failed.
#[derive(Debug, PartialEq, Eq)]
pub enum Error {
    /// Another transaction holds a lock on the key. The client resolves
    /// that transaction, by its primary key, and tries again.
    KeyIsLocked { key: Vec<u8>, primary: Vec<u8>, ts: u64 },
    /// Another transaction committed a version of the key after this one
    /// began.
    WriteConflict,
    /// The transaction holds no lock on the key and has not committed it.
    TxnLockNotFound,
    /// The transaction has committed the key and cannot be rolled back.
    AlreadyCommitted { commit_ts: u64 },
    /// A stored lock or page does not decode.
    BadFormat,
    /// A page of committed versions points to a page that cannot follow it.
    BadChain,
    /// A key does not decode.
    Codec { err: CodecError },
}

/// An error as a mathematical value.
pub enum ErrorKind {
    KeyIsLocked { key: Seq<u8>, primary: Seq<u8>, ts: u64 },
    WriteConflict,
    TxnLockNotFound,
    AlreadyCommitted { commit_ts: u64 },
    BadFormat,
    BadChain,
    Codec { err: CodecError },
}

impl View for Error {
    type V = ErrorKind;

    open spec fn view(&self) -> ErrorKind {
        match *self {
            Error::KeyIsLocked { key, primary, ts } => ErrorKind::KeyIsLocked {
                key: key@,
                primary: primary@,
                ts,
            },
            Error::WriteConflict => ErrorKind::WriteConflict,
            Error::TxnLockNotFound => ErrorKind::TxnLockNotFound,
            Error::AlreadyCommitted { commit_ts } => ErrorKind::AlreadyCommitted { commit_ts },
            Error::BadFormat => ErrorKind::BadFormat,
            Error::BadChain => ErrorKind::BadChain,
            Error::Codec { err } => ErrorKind::Codec { err },
        }
    }
}

} // verus!
