//! The options of a proxy.

use neemata_proxy::errors::{codes, ErrorClass, JsError};
use neemata_proxy::options::{
    default_limit_checks, is_hostname_like, parse_limits_options, parse_nullable_positive_u64,
    parse_positive_u32, parse_proxy_options, parse_sticky_session_options, parse_timeout_options,
    ApplicationOptions, ApplicationRoutingParsed, ListenerTlsOptions, Nullable,
    ProxyApplicationRouting, ProxyLimitCheckParsed, ProxyLimitsOptions, ProxyLimitsOptionsParsed,
    ProxyOptions, ProxyOptionsParsed, ProxyTimeoutOptions, StickySessionOptions,
};

fn app(name: &str, routing: ProxyApplicationRouting) -> ApplicationOptions {
    ApplicationOptions {
        name: name.to_string(),
        routing,
        sni: None,
    }
}

fn subdomain(name: &str) -> ProxyApplicationRouting {
    ProxyApplicationRouting::Subdomain {
        name: Some(name.to_string()),
    }
}

fn path(name: &str) -> ProxyApplicationRouting {
    ProxyApplicationRouting::Path {
        name: Some(name.to_string()),
    }
}

fn options(applications: Vec<ApplicationOptions>) -> ProxyOptions {
    ProxyOptions {
        listen: "127.0.0.1:0".to_string(),
        tls: None,
        applications,
        health_check_interval_ms: None,
        sticky_sessions: None,
        limits: None,
        timeouts: None,
    }
}

fn limits() -> ProxyLimitsOptions {
    ProxyLimitsOptions {
        max_uri_size: None,
        max_request_headers: None,
        max_single_header_size: None,
        max_request_header_size: None,
        max_request_body_size: None,
    }
}

fn timeouts() -> ProxyTimeoutOptions {
    ProxyTimeoutOptions {
        downstream_header: None,
        downstream_body_idle: None,
        upstream_connect: None,
        upstream_read: None,
        upstream_write: None,
        downstream_keep_alive: None,
    }
}

fn sticky() -> StickySessionOptions {
    StickySessionOptions {
        enabled: None,
        cookie_name: None,
        header_name: None,
        ttl_ms: None,
        max_entries: None,
    }
}

fn refused(applications: Vec<ApplicationOptions>) -> JsError {
    parse_proxy_options(options(applications)).unwrap_err()
}

fn accepted(applications: Vec<ApplicationOptions>) -> ProxyOptionsParsed {
    parse_proxy_options(options(applications)).unwrap()
}

#[test]
fn defaults_stand_where_nothing_is_said() {
    let parsed = accepted(vec![]);
    assert_eq!(parsed.listen, "127.0.0.1:0");
    assert!(parsed.tls.is_none());
    assert_eq!(parsed.health_check_interval_ms, 5000);
    assert!(!parsed.sticky_sessions.enabled);
    assert_eq!(parsed.sticky_sessions.cookie_name, "nmt_affinity");
    assert_eq!(parsed.sticky_sessions.header_name, "x-nmt-affinity-key");
    assert_eq!(parsed.sticky_sessions.ttl_ms, 600_000);
    assert_eq!(parsed.sticky_sessions.max_entries, 20_000);
    assert_eq!(parsed.timeouts.downstream_header_timeout_ms, 10_000);
    assert_eq!(parsed.timeouts.downstream_body_idle_timeout_ms, 60_000);
    assert_eq!(parsed.timeouts.upstream_connect_timeout_ms, 5_000);
    assert_eq!(parsed.timeouts.upstream_read_timeout_ms, 60_000);
    assert_eq!(parsed.timeouts.upstream_write_timeout_ms, 60_000);
    assert_eq!(parsed.timeouts.downstream_keep_alive_timeout_seconds, 75);
    let ProxyLimitsOptionsParsed::Enabled { checks } = parsed.limits else {
        panic!("the limits are on")
    };
    assert_eq!(
        checks,
        vec![
            ProxyLimitCheckParsed::UriBytes(8192),
            ProxyLimitCheckParsed::RequestHeaders(100),
            ProxyLimitCheckParsed::SingleHeaderBytes(8192),
            ProxyLimitCheckParsed::RequestHeaderBytes(65536),
            ProxyLimitCheckParsed::RequestBodyBytes(16_777_216),
        ]
    );
}

#[test]
fn tls_options_are_kept() {
    let mut o = options(vec![]);
    o.tls = Some(ListenerTlsOptions {
        cert_path: "cert.pem".to_string(),
        key_path: "key.pem".to_string(),
        enable_h2: None,
    });
    o.health_check_interval_ms = Some(250);
    let parsed = parse_proxy_options(o).unwrap();
    let tls = parsed.tls.unwrap();
    assert_eq!(tls.cert_path, "cert.pem");
    assert_eq!(tls.key_path, "key.pem");
    assert!(!tls.enable_h2);
    assert_eq!(parsed.health_check_interval_ms, 250);
}

#[test]
fn applications_are_kept_in_order() {
    let mut third = app("c", ProxyApplicationRouting::Default);
    third.sni = Some("  upstream.test ".to_string());
    let parsed = accepted(vec![app("a", subdomain("A.test")), app("b", path("b")), third]);
    assert_eq!(parsed.applications.len(), 3);
    assert_eq!(parsed.applications[0].name, "a");
    assert!(matches!(
        &parsed.applications[0].routing,
        ApplicationRoutingParsed::Subdomain { name } if name == "A.test"
    ));
    assert!(matches!(
        &parsed.applications[1].routing,
        ApplicationRoutingParsed::Path { name } if name == "b"
    ));
    assert!(matches!(
        &parsed.applications[2].routing,
        ApplicationRoutingParsed::Default
    ));
    assert_eq!(parsed.applications[2].sni.as_deref(), Some("upstream.test"));
}

#[test]
fn routing_needs_a_name() {
    let e = refused(vec![app("a", ProxyApplicationRouting::Path { name: None })]);
    assert_eq!(e.class, ErrorClass::TypeError);
    assert_eq!(e.code, codes::INVALID_APPLICATION_OPTIONS);
    assert_eq!(
        e.message,
        "ApplicationOptions.routing.name must be set for path routing"
    );
    let e = refused(vec![app("a", ProxyApplicationRouting::Subdomain { name: None })]);
    assert_eq!(
        e.message,
        "ApplicationOptions.routing.name must be set for subdomain routing"
    );
}

#[test]
fn duplicate_names_are_refused() {
    let e = refused(vec![app("a", path("x")), app("a", path("y"))]);
    assert_eq!(e.message, "Duplicate application name 'a'");
    let e = refused(vec![app("a", subdomain("x.test")), app("b", subdomain("X.TEST"))]);
    assert_eq!(e.message, "Duplicate subdomain routing name 'X.TEST'");
    let e = refused(vec![app("a", path("x")), app("b", path("x"))]);
    assert_eq!(e.message, "Duplicate path routing name 'x'");
    accepted(vec![app("a", path("x")), app("b", path("X"))]);
}

#[test]
fn route_names_must_have_their_form() {
    assert_eq!(
        refused(vec![app("a", subdomain(""))]).message,
        "subdomain routing name must be non-empty"
    );
    assert_eq!(
        refused(vec![app("a", path(""))]).message,
        "path routing name must be non-empty"
    );
    assert_eq!(
        refused(vec![app("a", path("x/y"))]).message,
        "path routing name must not contain '/'"
    );
}

#[test]
fn one_default_is_enough() {
    let e = refused(vec![
        app("a", ProxyApplicationRouting::Default),
        app("b", ProxyApplicationRouting::Default),
    ]);
    assert_eq!(
        e.message,
        "At most one application may use routing.type='default'"
    );
    accepted(vec![app("a", ProxyApplicationRouting::Default)]);
}

#[test]
fn sni_must_look_like_a_hostname() {
    let mut a = app("a", ProxyApplicationRouting::Default);
    a.sni = Some("   ".to_string());
    assert_eq!(
        refused(vec![a]).message,
        "ApplicationOptions.sni must be non-empty when provided"
    );
    let mut a = app("a", ProxyApplicationRouting::Default);
    a.sni = Some("a..b".to_string());
    assert_eq!(
        refused(vec![a]).message,
        "ApplicationOptions.sni must be a hostname-like value"
    );
    assert!(is_hostname_like("a-b.example.com"));
    assert!(is_hostname_like(&"a".repeat(63)));
    assert!(!is_hostname_like(&"a".repeat(64)));
    assert!(!is_hostname_like("-a.test"));
    assert!(!is_hostname_like("a-.test"));
    assert!(!is_hostname_like("a_b"));
    assert!(!is_hostname_like(""));
}

#[test]
fn sticky_sessions_are_on_where_they_are_spoken_of() {
    let parsed = parse_sticky_session_options(Some(sticky())).unwrap();
    assert!(parsed.enabled);
    let mut off = sticky();
    off.enabled = Some(false);
    assert!(!parse_sticky_session_options(Some(off)).unwrap().enabled);
}

#[test]
fn sticky_session_options_are_checked() {
    let mut s = sticky();
    s.cookie_name = Some(" ".to_string());
    let e = parse_sticky_session_options(Some(s)).unwrap_err();
    assert_eq!(e.code, codes::INVALID_PROXY_OPTIONS);
    assert_eq!(e.message, "stickySessions.cookieName must be non-empty");
    let mut s = sticky();
    s.header_name = Some("".to_string());
    assert_eq!(
        parse_sticky_session_options(Some(s)).unwrap_err().message,
        "stickySessions.headerName must be non-empty"
    );
    let mut s = sticky();
    s.ttl_ms = Some(0);
    assert_eq!(
        parse_sticky_session_options(Some(s)).unwrap_err().message,
        "stickySessions.ttlMs must be greater than 0"
    );
    let mut s = sticky();
    s.max_entries = Some(0);
    assert_eq!(
        parse_sticky_session_options(Some(s)).unwrap_err().message,
        "stickySessions.maxEntries must be greater than 0"
    );
}

#[test]
fn limits_can_be_set_and_switched_off() {
    let mut l = limits();
    l.max_uri_size = Some(Nullable::Value(10));
    l.max_request_headers = Some(Nullable::Null);
    let ProxyLimitsOptionsParsed::Enabled { checks } =
        parse_limits_options(Some(Nullable::Value(l))).unwrap()
    else {
        panic!("the limits are on")
    };
    assert_eq!(
        checks,
        vec![
            ProxyLimitCheckParsed::UriBytes(10),
            ProxyLimitCheckParsed::SingleHeaderBytes(8192),
            ProxyLimitCheckParsed::RequestHeaderBytes(65536),
            ProxyLimitCheckParsed::RequestBodyBytes(16_777_216),
        ]
    );
    assert!(matches!(
        parse_limits_options(Some(Nullable::Null)).unwrap(),
        ProxyLimitsOptionsParsed::Disabled
    ));
    let off = ProxyLimitsOptions {
        max_uri_size: Some(Nullable::Null),
        max_request_headers: Some(Nullable::Null),
        max_single_header_size: Some(Nullable::Null),
        max_request_header_size: Some(Nullable::Null),
        max_request_body_size: Some(Nullable::Null),
    };
    assert!(matches!(
        parse_limits_options(Some(Nullable::Value(off))).unwrap(),
        ProxyLimitsOptionsParsed::Disabled
    ));
    assert!(matches!(
        default_limit_checks(),
        ProxyLimitsOptionsParsed::Enabled { .. }
    ));
}

#[test]
fn limits_must_be_positive() {
    let mut l = limits();
    l.max_request_body_size = Some(Nullable::Value(0));
    let e = parse_limits_options(Some(Nullable::Value(l))).unwrap_err();
    assert_eq!(e.message, "limits.maxRequestBodySize must be greater than 0");
    assert_eq!(e.class, ErrorClass::TypeError);
    assert_eq!(
        parse_nullable_positive_u64("f", Some(Nullable::Value(7)), 1).unwrap(),
        Some(7)
    );
}

#[test]
fn timeouts_must_be_positive() {
    let mut t = timeouts();
    t.upstream_connect = Some(0);
    assert_eq!(
        parse_timeout_options(Some(t)).unwrap_err().message,
        "timeouts.upstreamConnect must be greater than 0"
    );
    let mut t = timeouts();
    t.upstream_read = Some(1);
    assert_eq!(
        parse_timeout_options(Some(t)).unwrap().upstream_read_timeout_ms,
        1
    );
    assert_eq!(parse_positive_u32("f", None, 3).unwrap(), 3);
}
