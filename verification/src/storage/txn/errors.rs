//! Why an operation of the store fails.

use crate::storage::mvcc::errors::{Error as MvccError, ErrorKind as MvccErrorKind};
use crate::storage::types::CodecError;
use vstd::prelude::*;

verus! {

/// Why an operation of the store failed.
#[derive(Debug, PartialEq, Eq)]
pub enum Error {
    /// The multi-version layer failed.
    Mvcc { err: MvccError },
    /// A key does not decode.
    Codec { err: CodecError },
}

/// An error as a mathematical value.
pub enum ErrorKind {
    Mvcc { err: MvccErrorKind },
    Codec { err: CodecError },
}

impl View for Error {
    type V = ErrorKind;

    open spec fn view(&self) -> ErrorKind {
        match *self {
            Error::Mvcc { err } => ErrorKind::Mvcc { err: err@ },
            Error::Codec { err } => ErrorKind::Codec { err },
        }
    }
}

} // verus!
