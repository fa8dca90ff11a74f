//! The error taxonomy: transport failures, malformed response bodies and
//! device-reported errors. Every failure surfaces to the caller as a typed
//! result; none is swallowed or defaulted. Builder misuse needs no variant:
//! a builder is consumed by value, so reuse cannot compile.

use vstd::prelude::*;

verus! {

/// Why a command execution failed.
#[derive(Debug)]
pub enum DivoomAPIError {
    /// The HTTP round trip itself failed; the transport's message is passed
    /// through verbatim and the request was not retried.
    TransportError(String),
    /// The response body is not a well-formed envelope; it is never passed
    /// off as a success or a default.
    DecodeError,
    /// The device answered with a structured envelope whose error code is
    /// not zero; the code is device-defined and passed through verbatim.
    ServerError(i64),
}

} // verus!
