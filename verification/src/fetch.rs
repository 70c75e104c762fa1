//! The outcome of one fetch of the resource.
//!
//! The network call itself happens outside the library; what it yields —
//! an HTTP status and the full response body — is decided here. A status
//! outside the success range fails on its own: the body is never looked
//! at, let alone parsed. A success status hands the body to the wire
//! parser, and a body that denotes no resource fails too. Either failure
//! aborts the whole operation; there is no partial result.

use vstd::prelude::*;

use crate::wire::{parse_data, sp_data, Data};

verus! {

/// Why a fetch produced no resource. The causes are not recovered from;
/// they are only reported.
#[derive(Debug, PartialEq, Eq, Structural)]
pub enum FetchError {
    /// The response status was outside the success range.
    Status(u16),
    /// The response body denoted no resource.
    Body,
}

/// Whether an HTTP status is a success.
pub open spec fn is_success(status: u16) -> bool {
    200 <= status < 300
}

/// Decides one fetch from what the network call yielded.
///
/// A status outside the success range gives that status back as the
/// error, whatever the body holds. A success status gives exactly the
/// resource the body denotes, or the body error when it denotes none.
pub fn fetch_outcome(status: u16, body: &str) -> (r: Result<Data, FetchError>)
    ensures
        !is_success(status) ==> r == Err::<Data, FetchError>(FetchError::Status(status)),
        is_success(status) ==> match (r, sp_data(body@)) {
            (Ok(d), Some(v)) => d@ == v,
            (Err(e), None) => e == FetchError::Body,
            _ => false,
        },
{
    if status < 200 || status >= 300 {
        Err(FetchError::Status(status))
    } else {
        match parse_data(body) {
            Some(d) => Ok(d),
            None => Err(FetchError::Body),
        }
    }
}

} // verus!
