//! The kinds of failure that the protocol tells apart.

use vstd::prelude::*;

verus! {

/// Why an operation failed, as far as its caller needs to know.
#[derive(Debug, Clone, Copy, PartialEq, Eq, Structural)]
pub enum Failure {
    /// The filesystem refused: a file is missing, unreadable or unwritable.
    Io,
    /// Bytes on disk or on the wire are not the JSON they should be.
    Serialization,
    /// A socket or an HTTP exchange failed, or the peer answered with a
    /// status that is not a success.
    Network,
    /// The transport worked but the request makes no sense, such as an
    /// offer whose body cannot be read.
    Protocol,
    /// A download names an id that nobody offered.
    NotFound,
}

/// HTTP status of a request that was served.
pub const STATUS_OK: u16 = 200;

/// HTTP status of a request that makes no sense.
pub const STATUS_BAD_REQUEST: u16 = 400;

/// HTTP status of a download of an unknown id.
pub const STATUS_NOT_FOUND: u16 = 404;

/// HTTP status of a request that failed on this side.
pub const STATUS_SERVER_ERROR: u16 = 500;

/// The status that the rendezvous service answers with.
pub open spec fn status_of(outcome: Result<(), Failure>) -> u16 {
    match outcome {
        Ok(()) => STATUS_OK,
        Err(Failure::Protocol) => STATUS_BAD_REQUEST,
        Err(Failure::NotFound) => STATUS_NOT_FOUND,
        Err(_) => STATUS_SERVER_ERROR,
    }
}

/// The status that the rendezvous service answers with: success, bad
/// request for a protocol error, not found for an unknown id, and server
/// error for anything that went wrong on this side.
pub fn http_status(outcome: Result<(), Failure>) -> (status: u16)
    ensures
        status == status_of(outcome),
{
    match outcome {
        Ok(()) => STATUS_OK,
        Err(Failure::Protocol) => STATUS_BAD_REQUEST,
        Err(Failure::NotFound) => STATUS_NOT_FOUND,
        Err(_) => STATUS_SERVER_ERROR,
    }
}

/// Whether an HTTP status reports success.
pub open spec fn is_success(status: u16) -> bool {
    200 <= status < 300
}

/// What a client makes of the status of a response: any status that is not
/// a success is a network failure.
pub fn check_status(status: u16) -> (outcome: Result<(), Failure>)
    ensures
        is_success(status) ==> outcome == Ok::<(), Failure>(()),
        !is_success(status) ==> outcome == Err::<(), Failure>(Failure::Network),
{
    if 200 <= status && status < 300 {
        Ok(())
    } else {
        Err(Failure::Network)
    }
}

} // verus!
