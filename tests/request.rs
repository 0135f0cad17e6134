use axum_bridge::error::BridgeError;
use axum_bridge::headers::{from_native, MAX_HEADERS};
use axum_bridge::request::build_request;

#[test]
fn builds_request_without_headers_or_body() {
    let q = build_request("GET".to_string(), "/".to_string(), None, None).unwrap();
    assert_eq!(q.method, "GET");
    assert_eq!(q.target, "/");
    assert!(q.headers.is_empty());
    assert!(q.body.is_empty());
}

#[test]
fn builds_request_with_query_headers_and_body() {
    let headers = vec![
        ("Content-Type".to_string(), "application/json".to_string()),
        ("bad\u{7}".to_string(), "x".to_string()),
    ];
    let q = build_request(
        "POST".to_string(),
        "/items?id=3".to_string(),
        Some(headers),
        Some(b"{}".to_vec()),
    )
    .unwrap();
    assert_eq!(q.target, "/items?id=3");
    assert_eq!(
        from_native(&q.headers),
        vec![("content-type".to_string(), "application/json".to_string())]
    );
    assert_eq!(q.body, b"{}".to_vec());
}

#[test]
fn malformed_method_is_refused() {
    let r = build_request("GE T".to_string(), "/".to_string(), None, None);
    assert_eq!(r.err(), Some(BridgeError::RequestMalformed));
}

#[test]
fn empty_method_is_refused() {
    let r = build_request(String::new(), "/".to_string(), None, None);
    assert_eq!(r.err(), Some(BridgeError::RequestMalformed));
}

#[test]
fn malformed_target_is_refused() {
    let r = build_request("GET".to_string(), "/a b".to_string(), None, None);
    assert_eq!(r.err(), Some(BridgeError::RequestMalformed));
}

#[test]
fn extension_method_is_kept() {
    let q = build_request("PURGE".to_string(), "/cache".to_string(), None, None).unwrap();
    assert_eq!(q.method, "PURGE");
}

#[test]
fn bad_header_does_not_fail_the_call() {
    let headers = vec![
        ("x-first".to_string(), "1".to_string()),
        ("bad\nname".to_string(), "2".to_string()),
        ("x-last".to_string(), "3".to_string()),
    ];
    let q = build_request("GET".to_string(), "/".to_string(), Some(headers), None).unwrap();
    assert_eq!(
        from_native(&q.headers),
        vec![
            ("x-first".to_string(), "1".to_string()),
            ("x-last".to_string(), "3".to_string()),
        ]
    );
}

#[test]
fn many_distinct_headers_are_kept() {
    let headers: Vec<(String, String)> = (0..MAX_HEADERS - 1)
        .map(|i| (format!("x-h{}", i), i.to_string()))
        .collect();
    let q = build_request("GET".to_string(), "/".to_string(), Some(headers.clone()), None).unwrap();
    assert_eq!(from_native(&q.headers), headers);
}
