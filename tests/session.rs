use axum::http::header::{HeaderMap, HeaderName, HeaderValue};
use axum_bridge::session::StreamCall;

#[test]
fn chunk_before_head_is_refused() {
    let mut call = StreamCall::new();
    assert!(!call.is_started());
    assert_eq!(call.deliver(b"early".to_vec()), None);
}

#[test]
fn head_goes_out_once_then_chunks_pass() {
    let mut m = HeaderMap::new();
    m.append(HeaderName::from_static("content-type"), HeaderValue::from_static("text/plain"));
    let mut call = StreamCall::new();
    let (line, headers) = call.start(200, &m).unwrap();
    assert_eq!(line, "200 OK");
    assert_eq!(headers, vec![("content-type".to_string(), "text/plain".to_string())]);
    assert!(call.is_started());
    assert!(call.start(200, &m).is_none());
    assert_eq!(call.deliver(b"abc".to_vec()), Some(b"abc".to_vec()));
}
