//! Errors of the request/reply surface.

use vstd::prelude::*;

verus! {

/// Failure of the client/server exchange that the library can report.
#[derive(Debug, Clone, Copy, PartialEq, Eq, Structural)]
pub enum CommunicationError {
    /// The reply was not complete: either no final chunk was seen, or a
    /// sequence number before the final chunk is missing.
    Timeout,
    /// A payload did not decode as UTF-8.
    Decode,
}

impl CommunicationError {
    /// A human-readable line for the error.
    pub fn message(&self) -> (r: String)
        ensures
            self is Timeout ==> r@ == "timed out waiting for a complete reply"@,
            self is Decode ==> r@ == "reply payload is not valid UTF-8"@,
    {
        match self {
            CommunicationError::Timeout => "timed out waiting for a complete reply".to_owned(),
            CommunicationError::Decode => "reply payload is not valid UTF-8".to_owned(),
        }
    }
}

} // verus!
