use vstd::prelude::*;

verus! {

/// Why a call through the bridge failed.
#[derive(Debug, Clone, Copy, PartialEq, Eq, Structural)]
pub enum BridgeError {
    /// The method or the target of the request is not well formed.
    RequestMalformed,
    /// The service's own dispatch machinery failed.
    ServiceExecutionFailed,
    /// Reading the response body failed.
    BodyReadFailed,
    /// The outbound value could not be serialized.
    EncodingFailed,
}

} // verus!
