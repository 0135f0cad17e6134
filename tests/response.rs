use axum::http::header::{HeaderMap, HeaderName, HeaderValue};
use axum_bridge::response::{
    assemble_bundle, bundle_response, decimal, encode_response, response_head, status_line,
    status_line_with,
};

#[test]
fn decimal_numerals() {
    assert_eq!(decimal(0), "0");
    assert_eq!(decimal(7), "7");
    assert_eq!(decimal(404), "404");
    assert_eq!(decimal(65535), "65535");
}

#[test]
fn status_lines() {
    assert_eq!(status_line(200), "200 OK");
    assert_eq!(status_line(404), "404 Not Found");
    assert_eq!(status_line(599), "599");
    assert_eq!(status_line_with(201, Some("Created".to_string())), "201 Created");
    assert_eq!(status_line_with(299, None), "299");
}

#[test]
fn response_head_lists_headers() {
    let mut m = HeaderMap::new();
    m.append(HeaderName::from_static("content-type"), HeaderValue::from_static("text/plain"));
    m.append(HeaderName::from_static("x-bin"), HeaderValue::from_bytes(&[0x61, 0xff]).unwrap());
    let (line, headers) = response_head(500, &m);
    assert_eq!(line, "500 Internal Server Error");
    assert_eq!(
        headers,
        vec![
            ("content-type".to_string(), "text/plain".to_string()),
            ("x-bin".to_string(), String::new()),
        ]
    );
}

#[test]
fn single_shot_bundle_decodes_back() {
    let headers = vec![("content-type".to_string(), "text/plain".to_string())];
    let text = encode_response(200, &headers, &"ok".to_string()).unwrap();
    let v: serde_json::Value = serde_json::from_str(&text).unwrap();
    assert_eq!(v["status"].as_u64(), Some(200));
    assert_eq!(v["headers"][0][0].as_str(), Some("content-type"));
    assert_eq!(v["headers"][0][1].as_str(), Some("text/plain"));
    assert_eq!(v["headers"].as_array().unwrap().len(), 1);
    assert_eq!(v["body"].as_str(), Some("ok"));
    assert_eq!(
        text,
        "{\"status\":200,\"headers\":[[\"content-type\",\"text/plain\"]],\"body\":\"ok\"}"
    );
}

#[test]
fn bundle_escapes_quotes_and_newlines() {
    let headers = vec![("x-q".to_string(), "a\"b".to_string())];
    let text = encode_response(201, &headers, &"line1\nline2".to_string()).unwrap();
    assert_eq!(
        text,
        "{\"status\":201,\"headers\":[[\"x-q\",\"a\\\"b\"]],\"body\":\"line1\\nline2\"}"
    );
}

#[test]
fn bundle_with_no_headers_and_empty_body() {
    let text = encode_response(204, &Vec::new(), &String::new()).unwrap();
    assert_eq!(text, "{\"status\":204,\"headers\":[],\"body\":\"\"}");
}

#[test]
fn assemble_places_quoted_parts() {
    let quoted = vec![
        ("\"a\"".to_string(), "\"1\"".to_string()),
        ("\"b\"".to_string(), "\"2\"".to_string()),
    ];
    let text = assemble_bundle(404, &quoted, &"\"x\"".to_string());
    assert_eq!(text, "{\"status\":404,\"headers\":[[\"a\",\"1\"],[\"b\",\"2\"]],\"body\":\"x\"}");
}

#[test]
fn bundle_response_decodes_body_lossily() {
    let mut m = HeaderMap::new();
    m.append(HeaderName::from_static("x-a"), HeaderValue::from_static("1"));
    let text = bundle_response(200, &m, &vec![b'h', b'i', 0xff]).unwrap();
    let v: serde_json::Value = serde_json::from_str(&text).unwrap();
    assert_eq!(v["body"].as_str(), Some("hi\u{fffd}"));
    assert_eq!(v["headers"][0][0].as_str(), Some("x-a"));
}

#[test]
fn bundle_escapes_control_characters() {
    let text = encode_response(200, &Vec::new(), &"a\u{1}b\u{1f}\u{8}\u{c}\r\t\\".to_string()).unwrap();
    assert_eq!(
        text,
        "{\"status\":200,\"headers\":[],\"body\":\"a\\u0001b\\u001f\\b\\f\\r\\t\\\\\"}"
    );
}
