//! Errors of the transfer protocol.  Every kind is fatal for the operation
//! that meets it; no retry is attempted here.

use vstd::prelude::*;
use crate::parser::ParseError;

verus! {

/// Why a transfer, listing or delete failed.
#[derive(Debug)]
pub enum TransferError {
    /// A local read or write failed; carries the reporter's message.
    IoError(String),
    /// A record's content did not decode.
    MalformedRecord(ParseError),
    /// A record was well formed but lacked a field the operation requires,
    /// or a chain ended before yielding all its extents.
    InvalidRecord,
    /// The remote store failed; carries the reporter's message.
    StoreError(String),
}

} // verus!
