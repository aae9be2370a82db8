//! Hosts and paths.

use std::borrow::Cow;

use neemata_proxy::request::{
    extract_first_path_segment, normalize_host, strip_first_path_segment, strip_port_str,
};

#[test]
fn path_rewrite_strips_exact_segment() {
    assert_eq!(
        strip_first_path_segment("/auth", "auth").as_deref(),
        Some("/")
    );
    assert_eq!(
        strip_first_path_segment("/auth/", "auth").as_deref(),
        Some("/")
    );
    assert_eq!(
        strip_first_path_segment("/auth/login", "auth").as_deref(),
        Some("/login")
    );
}

#[test]
fn path_rewrite_preserves_query_string() {
    assert_eq!(
        strip_first_path_segment("/auth/login?x=1", "auth").as_deref(),
        Some("/login?x=1")
    );
}

#[test]
fn path_rewrite_is_boundary_aware() {
    assert_eq!(strip_first_path_segment("/authz", "auth"), None);
    assert_eq!(strip_first_path_segment("/authz/login", "auth"), None);
    assert_eq!(strip_first_path_segment("/a", "auth"), None);
}

#[test]
fn strip_port_handles_ipv4() {
    assert_eq!(strip_port_str("example.com:3000"), "example.com");
    assert_eq!(strip_port_str("example.com"), "example.com");
    assert_eq!(strip_port_str("127.0.0.1:8080"), "127.0.0.1");
}

#[test]
fn strip_port_handles_ipv6() {
    assert_eq!(strip_port_str("[::1]:3000"), "[::1]");
    assert_eq!(strip_port_str("[::1]"), "[::1]");
    assert_eq!(strip_port_str("[2001:db8::1]:443"), "[2001:db8::1]");
}

#[test]
fn strip_port_edge_cases() {
    // Empty string
    assert_eq!(strip_port_str(""), "");
    // Trailing colon - empty "port" is all digits (vacuously true), so strips
    assert_eq!(strip_port_str("host:"), "host");
    // Non-numeric port (should not strip)
    assert_eq!(strip_port_str("host:abc"), "host:abc");
    // Multiple colons without brackets (last segment is port-like)
    assert_eq!(strip_port_str("a:b:80"), "a:b");
    // Only port number - empty host, does not strip
    assert_eq!(strip_port_str(":8080"), ":8080");
    // Malformed IPv6 (no closing bracket)
    assert_eq!(strip_port_str("[::1"), "[::1");
    // IPv6 with trailing content after bracket
    assert_eq!(strip_port_str("[::1]abc"), "[::1]");
}

#[test]
fn path_rewrite_edge_cases() {
    // Root path - no segment to strip
    assert_eq!(strip_first_path_segment("/", "auth"), None);
    // Empty segment name
    assert_eq!(strip_first_path_segment("/auth", ""), None);
    // Deeply nested paths
    assert_eq!(
        strip_first_path_segment("/auth/a/b/c/d", "auth").as_deref(),
        Some("/a/b/c/d")
    );
    // Query string only on root segment
    assert_eq!(
        strip_first_path_segment("/auth?redirect=home", "auth").as_deref(),
        Some("/?redirect=home")
    );
    // Multiple query parameters
    assert_eq!(
        strip_first_path_segment("/auth/login?a=1&b=2&c=3", "auth").as_deref(),
        Some("/login?a=1&b=2&c=3")
    );
    // Path with encoded characters
    assert_eq!(
        strip_first_path_segment("/auth/path%20with%20spaces", "auth").as_deref(),
        Some("/path%20with%20spaces")
    );
    // Segment with special chars (if segment itself has special chars)
    assert_eq!(
        strip_first_path_segment("/auth-service/login", "auth-service").as_deref(),
        Some("/login")
    );
}

#[test]
fn path_rewrite_returns_borrowed_when_no_query() {
    // Without query string, should return Cow::Borrowed
    let result = strip_first_path_segment("/auth/login", "auth");
    assert!(matches!(result, Some(Cow::Borrowed(_))));

    // With query string, must allocate (Cow::Owned)
    let result = strip_first_path_segment("/auth/login?x=1", "auth");
    assert!(matches!(result, Some(Cow::Owned(_))));
}

#[test]
fn path_rewrite_no_match_cases() {
    // Completely different segment
    assert_eq!(strip_first_path_segment("/users/login", "auth"), None);
    // Segment is prefix but not at boundary
    assert_eq!(strip_first_path_segment("/authorization", "auth"), None);
    // Case sensitive - should not match
    assert_eq!(strip_first_path_segment("/Auth/login", "auth"), None);
    assert_eq!(strip_first_path_segment("/AUTH/login", "auth"), None);
    // Missing leading slash
    assert_eq!(strip_first_path_segment("auth/login", "auth"), None);
}

#[test]
fn lowercase_host_helper() {
    // Already lowercase - should borrow
    let result = normalize_host("example.com");
    assert!(matches!(result, Cow::Borrowed(_)));
    assert_eq!(result, "example.com");

    // Uppercase - should allocate and lowercase
    let result = normalize_host("Example.COM");
    assert!(matches!(result, Cow::Owned(_)));
    assert_eq!(result, "example.com");

    // Mixed case with port
    let result = normalize_host("Example.com:8080");
    assert!(matches!(result, Cow::Owned(_)));
    assert_eq!(result, "example.com");

    // Lowercase with port - should borrow
    let result = normalize_host("example.com:8080");
    assert!(matches!(result, Cow::Borrowed(_)));
    assert_eq!(result, "example.com");

    // IPv6 uppercase (rare but possible)
    let result = normalize_host("[::1]:8080");
    assert!(matches!(result, Cow::Borrowed(_)));
    assert_eq!(result, "[::1]");
}

#[test]
fn hosts_compare_without_case_and_port() {
    assert_eq!(normalize_host("API.Example.com:443"), "api.example.com");
    assert_eq!(normalize_host("api.example.com"), "api.example.com");
    assert_eq!(normalize_host("[2001:DB8::1]:443"), "[2001:db8::1]");
}

#[test]
fn first_segment_is_the_first_that_is_not_empty() {
    assert_eq!(extract_first_path_segment("/auth/login"), Some("auth"));
    assert_eq!(extract_first_path_segment("//auth"), Some("auth"));
    assert_eq!(extract_first_path_segment("auth"), Some("auth"));
    assert_eq!(extract_first_path_segment("/"), None);
    assert_eq!(extract_first_path_segment(""), None);
}

#[test]
fn double_slash_is_routed_but_not_rewritten() {
    assert_eq!(extract_first_path_segment("//auth/login"), Some("auth"));
    assert_eq!(strip_first_path_segment("//auth/login", "auth"), None);
}

#[test]
fn segment_in_the_query_is_not_stripped() {
    assert_eq!(strip_first_path_segment("/?/auth", "auth"), None);
    assert_eq!(
        strip_first_path_segment("/auth?/auth", "auth").as_deref(),
        Some("/?/auth")
    );
}
