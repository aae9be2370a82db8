//! What is read off the headers of a request.

use http::{HeaderMap, HeaderName, HeaderValue};

use neemata_proxy::headers::{
    extract_cookie_value, extract_header_value, extract_host, find_cookie_key, value_text,
};
use neemata_proxy::sticky::{StickySessionConfig, StickySessionState};

fn headers(pairs: &[(&'static str, &'static str)]) -> HeaderMap {
    let mut map = HeaderMap::new();
    for (name, value) in pairs {
        map.append(
            HeaderName::from_static(name),
            HeaderValue::from_static(value),
        );
    }
    map
}

#[test]
fn host_is_read_without_port_and_in_small_letters() {
    let map = headers(&[("host", "Example.COM:8080")]);
    assert_eq!(extract_host(&map).as_deref(), Some("example.com"));
}

#[test]
fn missing_host_is_none() {
    assert_eq!(extract_host(&headers(&[("accept", "x")])), None);
}

#[test]
fn host_that_is_no_text_is_none() {
    let mut map = HeaderMap::new();
    map.insert("host", HeaderValue::from_bytes(b"ex\xffample").unwrap());
    assert_eq!(extract_host(&map), None);
}

#[test]
fn first_of_several_values_counts() {
    let map = headers(&[("x-key", "one"), ("x-key", "two")]);
    assert_eq!(extract_header_value(&map, "x-key").as_deref(), Some("one"));
}

#[test]
fn header_names_compare_without_case() {
    let map = headers(&[("x-nmt-affinity-key", " abc ")]);
    assert_eq!(
        extract_header_value(&map, "X-Nmt-Affinity-Key").as_deref(),
        Some("abc")
    );
}

#[test]
fn names_that_no_header_can_have_find_nothing() {
    let map = headers(&[("x-key", "one")]);
    assert_eq!(extract_header_value(&map, ""), None);
    assert_eq!(extract_header_value(&map, "x key"), None);
    assert_eq!(extract_header_value(&map, "x-k\u{e9}y"), None);
    assert_eq!(extract_header_value(&map, &" ".repeat(100)), None);
}

#[test]
fn long_header_names_compare_without_case() {
    let name = "x-".to_string() + &"a".repeat(100);
    let mut map = HeaderMap::new();
    map.insert(
        HeaderName::from_bytes(name.as_bytes()).unwrap(),
        HeaderValue::from_static("v"),
    );
    assert_eq!(
        extract_header_value(&map, &name.to_uppercase()).as_deref(),
        Some("v")
    );
}

#[test]
fn header_key_must_be_neither_empty_nor_long() {
    let mut map = HeaderMap::new();
    map.insert("k", HeaderValue::from_static("   "));
    assert_eq!(extract_header_value(&map, "k"), None);
    map.insert("k", HeaderValue::from_str(&"a".repeat(256)).unwrap());
    assert_eq!(extract_header_value(&map, "k"), Some("a".repeat(256)));
    map.insert("k", HeaderValue::from_str(&"a".repeat(257)).unwrap());
    assert_eq!(extract_header_value(&map, "k"), None);
}

#[test]
fn cookie_is_found_among_others() {
    let map = headers(&[("cookie", "a=1; nmt_affinity = x; nmt_affinity=key ; b=2")]);
    assert_eq!(
        extract_cookie_value(&map, "nmt_affinity").as_deref(),
        Some("key")
    );
    assert_eq!(extract_cookie_value(&map, "b").as_deref(), Some("2"));
    assert_eq!(extract_cookie_value(&map, "c"), None);
}

#[test]
fn cookie_value_may_hold_an_equals_sign() {
    assert_eq!(find_cookie_key("k=a=b", "k").as_deref(), Some("a=b"));
}

#[test]
fn useless_cookie_pairs_are_passed_over() {
    let long = format!("k={}; k=second", "a".repeat(257));
    assert_eq!(find_cookie_key(&long, "k").as_deref(), Some("second"));
    assert_eq!(find_cookie_key("k=; k; k=third", "k").as_deref(), Some("third"));
    assert_eq!(find_cookie_key("", "k"), None);
}

#[test]
fn key_length_is_in_bytes() {
    let key = "\u{e9}".repeat(128);
    assert_eq!(find_cookie_key(&format!("k={key}"), "k"), Some(key));
    let long = "\u{e9}".repeat(129);
    assert_eq!(find_cookie_key(&format!("k={long}"), "k"), None);
}

#[test]
fn values_are_text_only_where_all_bytes_are_visible() {
    assert_eq!(value_text(&vec![b'a', 9, b' ', b'~']).as_deref(), Some("a\t ~"));
    assert_eq!(value_text(&vec![b'a', 127]), None);
    assert_eq!(value_text(&vec![31]), None);
    assert_eq!(value_text(&vec![]).as_deref(), Some(""));
}

#[test]
fn cookie_that_was_set_brings_its_key_back() {
    let mut state = StickySessionState::new(StickySessionConfig {
        enabled: true,
        cookie_name: "nmt_affinity".to_string(),
        header_name: "x-nmt-affinity-key".to_string(),
        ttl_ms: 600_000,
        max_entries: 10,
        cookie_secure: true,
    });
    let key = state.generate_affinity_key(1_700_000_000_000_000_000);
    let cookie = state.cookie_header_value(&key);
    assert_eq!(find_cookie_key(&cookie, "nmt_affinity"), Some(key));
}
