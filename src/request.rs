use vstd::prelude::*;
use axum::http::{Method, Uri};
use axum::http::header::HeaderMap;
use crate::error::BridgeError;
use crate::headers::{
    header_entries, is_token_char, is_upper_char, native_of, pairs_view, to_native, MAX_HEADERS,
};

verus! {

/// The texts that parse as a request method: one or more token characters (RFC 9110 `tchar`,
/// either case). The method keeps its text as given.
pub open spec fn method_accepted(s: Seq<char>) -> bool {
    s.len() >= 1 && forall|i: int|
        0 <= i < s.len() ==> is_token_char(#[trigger] s[i]) || is_upper_char(s[i])
}

/// Whether a text parses as a request target (path and optional query).
pub uninterp spec fn target_accepted(s: Seq<char>) -> bool;

/// Relies on `Method::try_from(&str)` (http): accepts exactly the non-empty texts whose bytes
/// are all token characters.
#[verifier::external_body]
fn method_ok(s: &str) -> (r: bool)
    ensures
        r == method_accepted(s@),
{
    Method::try_from(s).is_ok()
}

/// Relies on `Uri::try_from(&str)` (http): whether the text is a request target. The empty
/// text is refused and `/` alone is accepted.
#[verifier::external_body]
fn target_ok(s: &str) -> (r: bool)
    ensures
        r == target_accepted(s@),
        s@.len() == 0 ==> !r,
        s@ == seq!['/'] ==> r,
{
    Uri::try_from(s).is_ok()
}

/// A request ready to be sent through the service: its method and target have parsed, its
/// headers are in native form, and its body is the payload (empty when none was given).
pub struct InboundRequest {
    pub method: String,
    pub target: String,
    pub headers: HeaderMap,
    pub body: Vec<u8>,
}

/// The header pairs of an optional list.
pub open spec fn given_pairs(h: Option<Vec<(String, String)>>) -> Seq<(Seq<char>, Seq<char>)> {
    match h {
        Some(v) => pairs_view(v@),
        None => Seq::empty(),
    }
}

/// The bytes of an optional body.
pub open spec fn given_body(b: Option<Vec<u8>>) -> Seq<u8> {
    match b {
        Some(v) => v@,
        None => Seq::empty(),
    }
}

/// Assembles a request from what the host handed over. It fails with `RequestMalformed`
/// exactly when the method or the target does not parse; header pairs that do not parse are
/// dropped and never fail the call.
pub fn build_request(
    method: String,
    target: String,
    headers: Option<Vec<(String, String)>>,
    body: Option<Vec<u8>>,
) -> (r: Result<InboundRequest, BridgeError>)
    requires
        given_pairs(headers).len() < MAX_HEADERS,
    ensures
        r is Ok <==> method_accepted(method@) && target_accepted(target@),
        method_accepted(method@) && target@ == seq!['/'] ==> r is Ok,
        target@.len() == 0 ==> r is Err,
        r matches Err(e) ==> e == BridgeError::RequestMalformed,
        r matches Ok(q) ==> {
            &&& q.method@ == method@
            &&& q.target@ == target@
            &&& header_entries(q.headers) == native_of(given_pairs(headers))
            &&& q.body@ == given_body(body)
        },
{
    if !method_ok(method.as_str()) || !target_ok(target.as_str()) {
        return Err(BridgeError::RequestMalformed);
    }
    let pairs = match headers {
        Some(v) => v,
        None => Vec::new(),
    };
    let native = to_native(&pairs);
    let bytes = match body {
        Some(b) => b,
        None => Vec::new(),
    };
    Ok(InboundRequest { method, target, headers: native, body: bytes })
}

} // verus!
