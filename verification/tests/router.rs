//! Where requests go.

use std::sync::Arc;

use http::{HeaderMap, HeaderName, HeaderValue};

use neemata_proxy::lb::{BackendSet, TransportKind};
use neemata_proxy::router::{
    cookie_appended, fail_to_connect, fail_to_proxy, request_filter, resolve_pool, resolve_route,
    response_filter, upstream_peer, upstream_request_filter, upstream_selected, uri_rewritten,
    AppPools, FailureHint, FilterErrorKind, PeerStep, PoolConfig, Router, RouterConfig, RouterCtx,
};
use neemata_proxy::sticky::{StickySessionConfig, StickySessionState};

const SECOND: u64 = 1_000_000_000;

fn pool(lb: u32, secure: bool) -> PoolConfig<u32> {
    let mut backends = BackendSet::new();
    backends.insert("10.0.0.1:80".to_string());
    backends.insert("10.0.0.2:80".to_string());
    PoolConfig {
        lb: Arc::new(lb),
        secure,
        verify_hostname: if secure { "name.test".to_string() } else { String::new() },
        backends: Arc::new(backends),
    }
}

fn pools(
    http1: Option<PoolConfig<u32>>,
    ws: Option<PoolConfig<u32>>,
    http2: Option<PoolConfig<u32>>,
) -> AppPools<u32> {
    AppPools { http1, ws, http2 }
}

fn config() -> RouterConfig<u32> {
    let mut config = RouterConfig::default();
    config
        .subdomain_routes
        .insert("a.test".to_string(), "a".to_string());
    config.path_routes.insert("b".to_string(), "b".to_string());
    config.default_app = Some("c".to_string());
    config.apps.insert(
        "a".to_string(),
        pools(Some(pool(1, false)), Some(pool(2, false)), Some(pool(3, true))),
    );
    config
        .apps
        .insert("b".to_string(), pools(Some(pool(4, false)), None, None));
    config.apps.insert("c".to_string(), pools(None, None, None));
    config
}

fn settings() -> StickySessionConfig {
    StickySessionConfig {
        enabled: true,
        cookie_name: "nmt_affinity".to_string(),
        header_name: "x-nmt-affinity-key".to_string(),
        ttl_ms: 10_000,
        max_entries: 100,
        cookie_secure: false,
    }
}

fn headers(pairs: &[(&'static str, &'static str)]) -> HeaderMap {
    let mut map = HeaderMap::new();
    for (name, value) in pairs {
        map.append(
            HeaderName::from_static(name),
            HeaderValue::from_static(value),
        );
    }
    map
}

fn served(config: &RouterConfig<u32>, host: &'static str, path: &str, upgrade: bool) -> RouterCtx<u32> {
    let mut ctx = RouterCtx::default();
    let r = request_filter(
        config,
        &mut None,
        &headers(&[("host", host)]),
        path,
        upgrade,
        0,
        &mut ctx,
    );
    assert_eq!(r.unwrap(), false);
    ctx
}

#[test]
fn host_goes_before_path_and_path_before_default() {
    let config = config();
    assert_eq!(
        resolve_route(&config, Some("a.test"), Some("b")),
        Some(("a".to_string(), None))
    );
    assert_eq!(
        resolve_route(&config, Some("z.test"), Some("b")),
        Some(("b".to_string(), Some("b".to_string())))
    );
    assert_eq!(
        resolve_route(&config, None, Some("z")),
        Some(("c".to_string(), None))
    );
    let none: RouterConfig<u32> = RouterConfig::default();
    assert_eq!(resolve_route(&none, Some("a.test"), Some("b")), None);
}

#[test]
fn plain_request_prefers_http2() {
    let ctx = served(&config(), "A.TEST:8080", "/b/x", false);
    assert_eq!(ctx.app_name.as_deref(), Some("a"));
    assert_eq!(ctx.path_rewrite_segment, None);
    let pool = ctx.resolved_pool.unwrap();
    assert_eq!(*pool.lb, 3);
    assert!(pool.is_http2);
    assert_eq!(pool.transport, TransportKind::Http2);
    assert_eq!(ctx.selected_transport, Some(TransportKind::Http2));
    assert!(!ctx.should_set_cookie);
}

#[test]
fn upgrade_goes_to_http1_whatever_other_pools_there_are() {
    // The application has pools of all three transports.
    let ctx = served(&config(), "a.test", "/", true);
    let pool = ctx.resolved_pool.unwrap();
    assert_eq!(*pool.lb, 1);
    assert!(!pool.is_http2);
    assert_eq!(pool.transport, TransportKind::Http1);
    assert_eq!(ctx.selected_transport, Some(TransportKind::Http1));
    assert!(ctx.is_upgrade);
}

#[test]
fn upgrade_goes_to_http1_alone() {
    let ctx = served(&config(), "z.test", "/b/x", true);
    assert_eq!(ctx.path_rewrite_segment.as_deref(), Some("b"));
    let pool = ctx.resolved_pool.unwrap();
    assert_eq!(*pool.lb, 4);
    assert_eq!(pool.transport, TransportKind::Http1);
}

#[test]
fn upgrade_never_goes_to_http2() {
    let only_http2 = pools(None, None, Some(pool(9, false)));
    assert!(resolve_pool(&only_http2, true).is_none());
    assert!(resolve_pool(&only_http2, false).is_some());
    let mut config = config();
    config.apps.insert("a".to_string(), only_http2);
    let mut ctx = RouterCtx::default();
    let e = request_filter(
        &config,
        &mut None,
        &headers(&[("host", "a.test")]),
        "/",
        true,
        0,
        &mut ctx,
    )
    .unwrap_err();
    assert_eq!(e.kind, FilterErrorKind::HttpStatus(503));
    assert_eq!(e.message, "no ws pool available for upgrade request");
    assert_eq!(ctx.failure_hint, Some(FailureHint::MissingWsPool));
    assert_eq!(fail_to_proxy(&ctx, e.kind).error_code, 503);
}

#[test]
fn upgrade_is_refused_without_http1_though_there_is_a_ws_pool() {
    let no_http1 = pools(None, Some(pool(8, false)), Some(pool(9, false)));
    assert!(resolve_pool(&no_http1, true).is_none());
    assert_eq!(resolve_pool(&no_http1, false).map(|pool| *pool.lb), Some(9));
    let only_ws = pools(None, Some(pool(8, false)), None);
    assert!(resolve_pool(&only_ws, true).is_none());
    assert!(resolve_pool(&only_ws, false).is_none());
    let mut config = config();
    config.apps.insert("a".to_string(), only_ws);
    let mut ctx = RouterCtx::default();
    let e = request_filter(
        &config,
        &mut None,
        &headers(&[("host", "a.test")]),
        "/",
        true,
        0,
        &mut ctx,
    )
    .unwrap_err();
    assert_eq!(e.kind, FilterErrorKind::HttpStatus(503));
    assert!(ctx.resolved_pool.is_none());
    assert_eq!(fail_to_proxy(&ctx, e.kind).error_code, 503);
}

#[test]
fn request_that_matches_nothing_is_not_found() {
    let none: RouterConfig<u32> = RouterConfig::default();
    let mut ctx = RouterCtx::default();
    let e = request_filter(&none, &mut None, &headers(&[]), "/", false, 0, &mut ctx).unwrap_err();
    assert_eq!(e.kind, FilterErrorKind::HttpStatus(404));
    assert_eq!(e.message, "no application matched");
    assert_eq!(ctx.failure_hint, Some(FailureHint::MissingApplication));
    let answer = fail_to_proxy(&ctx, FilterErrorKind::InternalError);
    assert_eq!(answer.error_code, 404);
    assert!(answer.respond);
    assert!(!answer.can_reuse_downstream);
}

#[test]
fn application_without_pools_is_unavailable() {
    let mut ctx = RouterCtx::default();
    let e = request_filter(
        &config(),
        &mut None,
        &headers(&[]),
        "/x",
        false,
        0,
        &mut ctx,
    )
    .unwrap_err();
    assert_eq!(e.kind, FilterErrorKind::HttpStatus(503));
    assert_eq!(e.message, "no upstream pool resolved");
    assert_eq!(ctx.app_name.as_deref(), Some("c"));
    assert_eq!(ctx.failure_hint, Some(FailureHint::MissingUpstreamPool));
}

#[test]
fn errors_without_a_hint_keep_their_status() {
    let ctx: RouterCtx<u32> = RouterCtx::default();
    assert_eq!(fail_to_proxy(&ctx, FilterErrorKind::HttpStatus(418)).error_code, 418);
    assert_eq!(fail_to_proxy(&ctx, FilterErrorKind::InternalError).error_code, 500);
    assert!(!fail_to_proxy(&ctx, FilterErrorKind::HttpStatus(0)).respond);
}

#[test]
fn peer_is_of_the_pool() {
    let mut ctx = served(&config(), "a.test", "/", false);
    let step = upstream_peer(&mut None, 0, &mut ctx).unwrap();
    assert!(matches!(&step, PeerStep::Select { lb, key } if **lb == 3 && key.is_empty()));
    let peer = upstream_selected(&mut None, Some("10.0.0.1:80".to_string()), 0, &mut ctx).unwrap();
    assert_eq!(peer.address, "10.0.0.1:80");
    assert!(peer.tls);
    assert_eq!(peer.sni, "name.test");
    assert_eq!(peer.http_version, (2, 2));
    let mut ctx = served(&config(), "z.test", "/b", false);
    let peer = upstream_selected(&mut None, Some("10.0.0.2:80".to_string()), 0, &mut ctx).unwrap();
    assert!(!peer.tls);
    assert_eq!(peer.sni, "");
    assert_eq!(peer.http_version, (1, 1));
}

#[test]
fn client_does_not_choose_the_verified_name() {
    let config = config();
    let mut one = served(&config, "a.test", "/", false);
    let mut other = RouterCtx::default();
    request_filter(
        &config,
        &mut None,
        &headers(&[("host", "A.Test:1"), ("x-forwarded-host", "evil.test")]),
        "/evil",
        false,
        0,
        &mut other,
    )
    .unwrap();
    let a = upstream_selected(&mut None, Some("10.0.0.1:80".to_string()), 0, &mut one).unwrap();
    let b = upstream_selected(&mut None, Some("10.0.0.1:80".to_string()), 0, &mut other).unwrap();
    assert_eq!(a.sni, "name.test");
    assert_eq!(a.sni, b.sni);
}

#[test]
fn peer_needs_a_pool_and_a_healthy_backend() {
    let mut ctx: RouterCtx<u32> = RouterCtx::default();
    assert!(matches!(
        upstream_peer(&mut None, 0, &mut ctx),
        Err(e) if e.message == "no upstream pool resolved"
    ));
    let mut ctx = served(&config(), "a.test", "/", false);
    let e = upstream_selected(&mut None, None, 0, &mut ctx).unwrap_err();
    assert_eq!(e.kind, FilterErrorKind::HttpStatus(503));
    assert_eq!(e.message, "no healthy upstreams available");
    assert_eq!(ctx.failure_hint, Some(FailureHint::UnhealthyUpstream));
}

#[test]
fn sessions_stick_to_their_backend() {
    let mut sticky = Some(StickySessionState::new(settings()));
    let config = config();
    let request = headers(&[("host", "a.test"), ("cookie", "nmt_affinity=k1")]);
    let mut ctx = RouterCtx::default();
    request_filter(&config, &mut sticky, &request, "/", false, 0, &mut ctx).unwrap();
    assert_eq!(ctx.affinity_key.as_deref(), Some("k1"));
    assert!(ctx.should_set_cookie);
    let step = upstream_peer(&mut sticky, 0, &mut ctx).unwrap();
    assert!(matches!(&step, PeerStep::Select { key, .. } if key == "k1"));
    upstream_selected(&mut sticky, Some("10.0.0.2:80".to_string()), 0, &mut ctx).unwrap();

    let mut later = RouterCtx::default();
    request_filter(&config, &mut sticky, &request, "/", false, 0, &mut later).unwrap();
    let step = upstream_peer(&mut sticky, 5 * SECOND, &mut later).unwrap();
    assert!(matches!(&step, PeerStep::Bound(peer) if peer.address == "10.0.0.2:80"));
    assert_eq!(
        response_filter(&sticky, &later).as_deref(),
        Some("nmt_affinity=k1; Max-Age=10; Path=/; HttpOnly; SameSite=Lax")
    );
}

#[test]
fn cookie_goes_before_header_and_header_before_a_new_key() {
    let mut sticky = Some(StickySessionState::new(settings()));
    let config = config();
    let mut ctx = RouterCtx::default();
    let both = headers(&[
        ("host", "a.test"),
        ("cookie", "nmt_affinity=c"),
        ("x-nmt-affinity-key", "h"),
    ]);
    request_filter(&config, &mut sticky, &both, "/", false, 0, &mut ctx).unwrap();
    assert_eq!(ctx.affinity_key.as_deref(), Some("c"));
    let header = headers(&[("host", "a.test"), ("x-nmt-affinity-key", "h")]);
    request_filter(&config, &mut sticky, &header, "/", false, 0, &mut ctx).unwrap();
    assert_eq!(ctx.affinity_key.as_deref(), Some("h"));
    let neither = headers(&[("host", "a.test")]);
    request_filter(&config, &mut sticky, &neither, "/", false, 16, &mut ctx).unwrap();
    assert_eq!(ctx.affinity_key.as_deref(), Some("101"));
}

#[test]
fn failed_connection_unbinds_and_is_tried_again_once() {
    let mut sticky = Some(StickySessionState::new(settings()));
    let config = config();
    let request = headers(&[("host", "a.test"), ("cookie", "nmt_affinity=k1")]);
    let mut ctx = RouterCtx::default();
    request_filter(&config, &mut sticky, &request, "/", false, 0, &mut ctx).unwrap();
    upstream_selected(&mut sticky, Some("10.0.0.2:80".to_string()), 0, &mut ctx).unwrap();
    assert!(fail_to_connect(&mut sticky, &mut ctx));
    assert!(ctx.sticky_retry_attempted);
    assert!(matches!(
        upstream_peer(&mut sticky, 0, &mut ctx),
        Ok(PeerStep::Select { .. })
    ));
    assert!(!fail_to_connect(&mut sticky, &mut ctx));
    let mut plain = served(&config, "a.test", "/", false);
    assert!(!fail_to_connect(&mut None, &mut plain));
    assert!(!plain.sticky_retry_attempted);
}

#[test]
fn no_cookie_without_sessions() {
    let ctx = served(&config(), "a.test", "/", false);
    assert_eq!(response_filter(&None, &ctx), None);
    let sticky = Some(StickySessionState::new(settings()));
    assert_eq!(response_filter(&sticky, &ctx), None);
    assert!(cookie_appended(true).is_ok());
    let e = cookie_appended(false).unwrap_err();
    assert_eq!(e.kind, FilterErrorKind::InternalError);
    assert_eq!(e.message, "failed to append sticky session cookie");
}

#[test]
fn path_is_rewritten_upstream() {
    let ctx = served(&config(), "z.test", "/b/login", false);
    assert_eq!(
        upstream_request_filter(&ctx, Some("/b/login?x=1")).unwrap().as_deref(),
        Some("/login?x=1")
    );
    assert_eq!(
        upstream_request_filter(&ctx, Some("/b")).unwrap().as_deref(),
        Some("/")
    );
    assert_eq!(
        upstream_request_filter(&ctx, Some("/b/x#y")).unwrap().as_deref(),
        Some("/x")
    );
    assert_eq!(upstream_request_filter(&ctx, Some("/bc")).unwrap(), None);
    assert_eq!(upstream_request_filter(&ctx, None).unwrap(), None);
    let other = served(&config(), "a.test", "/b/login", false);
    assert_eq!(upstream_request_filter(&other, Some("/b/login")).unwrap(), None);
}

#[test]
fn path_that_makes_no_uri_is_an_internal_error() {
    let ctx = served(&config(), "z.test", "/b/login", false);
    let e = upstream_request_filter(&ctx, Some("/b/a b")).unwrap_err();
    assert_eq!(e.kind, FilterErrorKind::InternalError);
    assert_eq!(e.message, "failed to rewrite upstream uri");
    assert!(uri_rewritten(None).is_err());
    assert_eq!(
        uri_rewritten(Some("/x".to_string())).unwrap().as_deref(),
        Some("/x")
    );
}

#[test]
fn router_keeps_its_sessions_when_routes_change() {
    let mut router: Router<u32> = Router::new(RouterConfig::default(), settings());
    assert!(router.sticky.is_some());
    router.update(config());
    assert!(router.sticky.is_some());
    assert!(resolve_route(&router.config, Some("a.test"), None).is_some());
    // The new routes take the place of all that were there.
    let mut other: RouterConfig<u32> = RouterConfig::default();
    other.path_routes.insert("d".to_string(), "d".to_string());
    router.update(other);
    assert!(router.sticky.is_some());
    assert_eq!(resolve_route(&router.config, Some("a.test"), Some("b")), None);
    assert_eq!(
        resolve_route(&router.config, None, Some("d")),
        Some(("d".to_string(), Some("d".to_string())))
    );
    let mut off = settings();
    off.enabled = false;
    let router: Router<u32> = Router::new(RouterConfig::default(), off);
    assert!(router.sticky.is_none());
}
