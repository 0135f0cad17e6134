use axum::http::header::HeaderMap;
use axum_bridge::headers::{from_native, header_value_text, to_native};

fn pairs(items: &[(&str, &str)]) -> Vec<(String, String)> {
    items.iter().map(|(k, v)| (k.to_string(), v.to_string())).collect()
}

#[test]
fn header_round_trip_keeps_order_and_duplicates() {
    let h = pairs(&[("content-type", "text/plain"), ("x-a", "1"), ("x-a", "2"), ("accept", "*/*")]);
    let native = to_native(&h);
    assert_eq!(from_native(&native), h);
}

#[test]
fn header_names_are_lowered() {
    let native = to_native(&pairs(&[("Content-Type", "text/html")]));
    assert_eq!(from_native(&native), pairs(&[("content-type", "text/html")]));
}

#[test]
fn header_with_control_character_in_name_is_dropped() {
    let h = pairs(&[("x-ok", "1"), ("bad\u{1}name", "2"), ("x-also", "3")]);
    let native = to_native(&h);
    assert_eq!(from_native(&native), pairs(&[("x-ok", "1"), ("x-also", "3")]));
}

#[test]
fn header_with_invalid_value_is_dropped() {
    let h = pairs(&[("x-a", "line\nbreak"), ("x-b", "fine")]);
    assert_eq!(from_native(&to_native(&h)), pairs(&[("x-b", "fine")]));
}

#[test]
fn header_with_space_in_name_is_dropped() {
    let h = pairs(&[("x a", "1")]);
    assert!(from_native(&to_native(&h)).is_empty());
}

#[test]
fn non_ascii_value_reads_back_empty() {
    let h = pairs(&[("x-name", "caf\u{e9}")]);
    assert_eq!(from_native(&to_native(&h)), pairs(&[("x-name", "")]));
}

#[test]
fn values_of_one_name_are_grouped() {
    let h = pairs(&[("x-a", "1"), ("x-b", "2"), ("x-a", "3")]);
    assert_eq!(
        from_native(&to_native(&h)),
        pairs(&[("x-a", "1"), ("x-a", "3"), ("x-b", "2")])
    );
}

#[test]
fn empty_header_list() {
    let native = to_native(&Vec::new());
    assert!(native.is_empty());
    assert!(from_native(&HeaderMap::new()).is_empty());
}

#[test]
fn header_value_text_cases() {
    assert_eq!(header_value_text(b"abc\tdef"), "abc\tdef");
    assert_eq!(header_value_text(&[0x61, 0x80]), "");
    assert_eq!(header_value_text(b""), "");
}
