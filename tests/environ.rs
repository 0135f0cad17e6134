use axum_bridge::environ::{environ_content_headers, environ_request};

#[test]
fn environ_defaults() {
    assert_eq!(environ_request(None, None, None), ("GET".to_string(), "/".to_string()));
    assert_eq!(
        environ_request(None, Some(String::new()), Some(String::new())),
        ("GET".to_string(), "/".to_string())
    );
}

#[test]
fn environ_joins_query() {
    let r = environ_request(
        Some("POST".to_string()),
        Some("/items".to_string()),
        Some("id=3&x=y".to_string()),
    );
    assert_eq!(r, ("POST".to_string(), "/items?id=3&x=y".to_string()));
}

#[test]
fn environ_content_headers_in_order() {
    assert_eq!(
        environ_content_headers(Some("text/plain".to_string()), Some("12".to_string())),
        vec![
            ("content-type".to_string(), "text/plain".to_string()),
            ("content-length".to_string(), "12".to_string()),
        ]
    );
    assert_eq!(
        environ_content_headers(None, Some("0".to_string())),
        vec![("content-length".to_string(), "0".to_string())]
    );
    assert!(environ_content_headers(None, None).is_empty());
}
