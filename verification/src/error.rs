//! Typed failures of the adapter.
//!
//! Every failure the adapter can produce is one of these variants; nothing is
//! logged or swallowed.  Raw request and response bytes are carried verbatim
//! whenever they were available at the point of failure.

use vstd::prelude::*;

verus! {

/// The failure taxonomy of the adapter.
#[derive(Debug, PartialEq, Eq)]
pub enum ErrorDetails {
    /// Invalid configuration: an unusable credential kind at construction, or
    /// a base endpoint that the completions path cannot be resolved against.
    Config { message: Vec<u8> },
    /// A dynamic credential key name was absent from the caller-supplied map.
    ApiKeyMissing { provider_name: Vec<u8> },
    /// A non-success HTTP status, an unreadable response body, or a response
    /// body that does not match the wire schema.
    InferenceServer {
        message: Vec<u8>,
        provider_type: Vec<u8>,
        raw_request: Option<Vec<u8>>,
        raw_response: Option<Vec<u8>>,
    },
    /// A capability (streaming, batch) that this backend does not implement.
    UnsupportedModelProviderForBatchInference { provider_type: Vec<u8> },
}

/// A failure returned to the immediate caller.
#[derive(Debug, PartialEq, Eq)]
pub struct Error {
    pub details: ErrorDetails,
}

impl Error {
    pub fn new(details: ErrorDetails) -> (r: Error)
        ensures
            r.details == details,
    {
        Error { details }
    }

    pub fn get_details(&self) -> (r: &ErrorDetails)
        ensures
            r == &self.details,
    {
        &self.details
    }
}

} // verus!
