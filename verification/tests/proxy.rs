//! What callers do with a proxy.

use std::sync::Arc;

use neemata_proxy::errors::{codes, ErrorClass};
use neemata_proxy::lb::TransportKind;
use neemata_proxy::options::{
    ApplicationOptions, ListenerTlsOptions, ListenerTlsOptionsParsed, ProxyApplicationRouting,
    ProxyOptions, StickySessionOptions,
};
use neemata_proxy::proxy::lifecycle::{
    start_channel_closed, start_outcome, stop_channel_closed, stop_outcome, BoundListenAddress,
    DeferredJsError, Lifecycle, StartStatus, StartStep, StopStatus, StopStep,
};
use neemata_proxy::proxy::listener::{listen_error, tls_error, SetupFailure};
use neemata_proxy::proxy::upstreams::{
    parse_port_upstream, pool_addresses, PortUpstream, PortUpstreamOptions,
    UnixSocketUpstreamOptions, UpstreamOptions,
};
use neemata_proxy::proxy::{
    finish_pool, lb_service_name, BuiltPool, Proxy, ServiceChanges, UpstreamUpdate,
};

fn options() -> ProxyOptions {
    ProxyOptions {
        listen: "127.0.0.1:0".to_string(),
        tls: None,
        applications: vec![
            ApplicationOptions {
                name: "sub".to_string(),
                routing: ProxyApplicationRouting::Subdomain {
                    name: Some("Sub.test".to_string()),
                },
                sni: Some("ignored.test".to_string()),
            },
            ApplicationOptions {
                name: "path".to_string(),
                routing: ProxyApplicationRouting::Path {
                    name: Some("p".to_string()),
                },
                sni: Some("sni.test".to_string()),
            },
            ApplicationOptions {
                name: "default".to_string(),
                routing: ProxyApplicationRouting::Default,
                sni: None,
            },
        ],
        health_check_interval_ms: Some(123),
        sticky_sessions: None,
        limits: None,
        timeouts: None,
    }
}

fn proxy() -> Proxy<u32> {
    Proxy::new(options()).unwrap()
}

fn upstream(transport: TransportKind, secure: bool, hostname: &str, port: u16) -> PortUpstream {
    PortUpstream {
        transport,
        secure,
        hostname: hostname.to_string(),
        port,
    }
}

fn built(update: &UpstreamUpdate, first_lb: u32) -> Vec<BuiltPool<u32>> {
    let mut pools = Vec::new();
    for (i, plan) in update.pools.iter().enumerate() {
        let resolved = plan
            .targets
            .iter()
            .map(|target| Ok(vec![format!("{}:{}", target.hostname, target.port)]))
            .collect();
        let addresses = pool_addresses(plan, resolved).unwrap();
        pools.push(finish_pool(&addresses, Ok(first_lb + i as u32)).unwrap());
    }
    pools
}

fn add(proxy: &mut Proxy<u32>, app: &str, u: &PortUpstream, lb: u32) -> ServiceChanges<u32> {
    let update = proxy.add_upstream(app, u).unwrap();
    let pools = built(&update, lb);
    proxy.commit_update(update, pools).unwrap()
}

fn remove(proxy: &mut Proxy<u32>, app: &str, u: &PortUpstream, lb: u32) -> ServiceChanges<u32> {
    let update = proxy.remove_upstream(app, u).unwrap();
    let pools = built(&update, lb);
    proxy.commit_update(update, pools).unwrap()
}

fn rejection<T>(r: Result<T, DeferredJsError>) -> DeferredJsError {
    match r {
        Ok(_) => panic!("it is rejected"),
        Err(e) => e,
    }
}

fn address() -> BoundListenAddress {
    BoundListenAddress {
        hostname: "127.0.0.1".to_string(),
        port: 3000,
    }
}

#[test]
fn new_proxy_has_routes_and_no_pools() {
    let proxy = proxy();
    let config = &proxy.router.config;
    assert_eq!(config.subdomain_routes.get("sub.test").map(String::as_str), Some("sub"));
    assert!(config.subdomain_routes.get("Sub.test").is_none());
    assert_eq!(config.path_routes.get("p").map(String::as_str), Some("path"));
    assert_eq!(config.default_app.as_deref(), Some("default"));
    let pools = config.apps.get("sub").unwrap();
    assert!(pools.http1.is_none() && pools.ws.is_none() && pools.http2.is_none());
    assert!(proxy.router.sticky.is_none());
    assert!(proxy.address().is_none());
}

#[test]
fn bad_options_make_no_proxy() {
    let mut o = options();
    o.applications[1].name = "sub".to_string();
    let e = match Proxy::<u32>::new(o) {
        Ok(_) => panic!("it is refused"),
        Err(e) => e,
    };
    assert_eq!(e.code, codes::INVALID_APPLICATION_OPTIONS);
    assert_eq!(e.message, "Duplicate application name 'sub'");
}

#[test]
fn cookie_is_secure_where_the_listener_is() {
    let mut o = options();
    o.sticky_sessions = Some(StickySessionOptions {
        enabled: None,
        cookie_name: None,
        header_name: None,
        ttl_ms: Some(2_000),
        max_entries: Some(5),
    });
    let plain: Proxy<u32> = Proxy::new(o).unwrap();
    let config = plain.router.sticky.as_ref().unwrap().config();
    assert!(!config.cookie_secure);
    assert_eq!((config.ttl_ms, config.max_entries), (2_000, 5));
    let mut o = options();
    o.sticky_sessions = Some(StickySessionOptions {
        enabled: Some(true),
        cookie_name: None,
        header_name: None,
        ttl_ms: None,
        max_entries: None,
    });
    o.tls = Some(ListenerTlsOptions {
        cert_path: "c".to_string(),
        key_path: "k".to_string(),
        enable_h2: Some(true),
    });
    let secure: Proxy<u32> = Proxy::new(o).unwrap();
    assert!(secure.router.sticky.as_ref().unwrap().config().cookie_secure);
}

#[test]
fn added_upstream_is_routed_to() {
    let mut proxy = proxy();
    let u = upstream(TransportKind::Http1, false, "10.0.0.1", 80);
    let changes = add(&mut proxy, "sub", &u, 7);
    assert!(!changes.is_running);
    assert_eq!(changes.to_upsert, vec![("lb:sub:http".to_string(), Arc::new(7))]);
    assert!(changes.to_remove.is_empty());
    let pools = proxy.router.config.apps.get("sub").unwrap();
    let pool = pools.http1.as_ref().unwrap();
    assert_eq!(*pool.lb, 7);
    assert!(!pool.secure);
    assert_eq!(pool.verify_hostname, "");
    assert!(pool.backends.contains("10.0.0.1:80"));
    assert!(!pool.backends.contains("10.0.0.2:80"));
    assert!(pools.ws.is_none() && pools.http2.is_none());
}

#[test]
fn update_carries_the_health_check_interval() {
    let proxy = proxy();
    let u = upstream(TransportKind::Ws, false, "h", 1);
    assert_eq!(proxy.add_upstream("sub", &u).unwrap().health_check_interval_ms, 123);
}

#[test]
fn removing_undoes_adding() {
    let mut proxy = proxy();
    let one = upstream(TransportKind::Http1, false, "10.0.0.1", 80);
    let two = upstream(TransportKind::Ws, false, "10.0.0.2", 80);
    add(&mut proxy, "sub", &one, 1);
    let changes = add(&mut proxy, "sub", &two, 2);
    assert_eq!(
        changes.to_upsert,
        vec![
            ("lb:sub:http".to_string(), Arc::new(2)),
            ("lb:sub:ws".to_string(), Arc::new(3)),
        ]
    );
    let changes = remove(&mut proxy, "sub", &two, 9);
    assert_eq!(changes.to_upsert, vec![("lb:sub:http".to_string(), Arc::new(9))]);
    assert_eq!(changes.to_remove, vec!["lb:sub:ws".to_string()]);
    let pools = proxy.router.config.apps.get("sub").unwrap();
    assert_eq!(pools.http1.as_ref().map(|pool| *pool.lb), Some(9));
    assert!(pools.ws.is_none());
    let set = proxy.upstreams_by_app.get("sub").unwrap();
    assert_eq!(set.len(), 1);
    assert!(set.contains(&one) && !set.contains(&two));
}

#[test]
fn other_applications_keep_their_pools() {
    let mut proxy = proxy();
    let u = upstream(TransportKind::Http1, false, "10.0.0.1", 80);
    add(&mut proxy, "sub", &u, 1);
    add(&mut proxy, "path", &u, 2);
    remove(&mut proxy, "path", &u, 0);
    let pools = proxy.router.config.apps.get("sub").unwrap();
    assert_eq!(pools.http1.as_ref().map(|pool| *pool.lb), Some(1));
    assert!(proxy.router.config.apps.get("path").unwrap().http1.is_none());
}

#[test]
fn unknown_application_is_rejected() {
    let proxy = proxy();
    let u = upstream(TransportKind::Http1, false, "h", 1);
    let e = rejection(proxy.add_upstream("nope", &u));
    assert_eq!(e.code, codes::UNKNOWN_APPLICATION);
    assert_eq!(e.message, "Unknown application 'nope'");
    assert_eq!(rejection(proxy.remove_upstream("nope", &u)).code, codes::UNKNOWN_APPLICATION);
}

#[test]
fn upstream_is_added_and_removed_once() {
    let mut proxy = proxy();
    let u = upstream(TransportKind::Http1, false, "h", 1);
    let e = rejection(proxy.remove_upstream("sub", &u));
    assert_eq!((e.code, e.message.as_str()), (codes::UPSTREAM_NOT_FOUND, "Upstream not found"));
    add(&mut proxy, "sub", &u, 1);
    let e = rejection(proxy.add_upstream("sub", &u));
    assert_eq!(
        (e.code, e.message.as_str()),
        (codes::UPSTREAM_ALREADY_EXISTS, "Upstream already exists")
    );
    // Another transport, port or hostname makes another upstream.
    assert!(proxy
        .add_upstream("sub", &upstream(TransportKind::Ws, false, "h", 1))
        .is_ok());
    assert!(proxy
        .add_upstream("sub", &upstream(TransportKind::Http1, false, "h", 2))
        .is_ok());
    assert!(proxy
        .add_upstream("sub", &upstream(TransportKind::Http1, false, "H", 1))
        .is_ok());
}

#[test]
fn secure_upstreams_verify_the_name_of_their_application() {
    let mut proxy = proxy();
    let u = upstream(TransportKind::Http2, true, "10.0.0.1", 443);
    add(&mut proxy, "sub", &u, 1);
    add(&mut proxy, "path", &u, 2);
    let config = &proxy.router.config;
    let sub = config.apps.get("sub").unwrap().http2.as_ref().unwrap();
    assert!(sub.secure);
    assert_eq!(sub.verify_hostname, "Sub.test");
    let path = config.apps.get("path").unwrap().http2.as_ref().unwrap();
    assert_eq!(path.verify_hostname, "sni.test");
    let e = rejection(proxy.add_upstream("default", &u));
    assert_eq!(e.code, codes::INVALID_APPLICATION_OPTIONS);
    assert_eq!(
        e.message,
        "ApplicationOptions.sni is required when using secure upstreams for path/default routing"
    );
}

#[test]
fn secure_and_insecure_upstreams_do_not_mix() {
    let mut proxy = proxy();
    add(&mut proxy, "sub", &upstream(TransportKind::Http1, false, "h", 1), 1);
    let e = rejection(proxy.add_upstream("sub", &upstream(TransportKind::Http1, true, "h", 2)));
    assert_eq!(e.code, codes::INVALID_PROXY_OPTIONS);
    assert_eq!(
        e.message,
        "Mixing secure and insecure upstreams within the same (app, transport) pool is not supported"
    );
    assert!(proxy
        .add_upstream("sub", &upstream(TransportKind::Http2, true, "h", 2))
        .is_ok());
}

#[test]
fn upstreams_that_are_not_found_are_rejected() {
    let mut proxy = proxy();
    add(&mut proxy, "sub", &upstream(TransportKind::Http1, false, "one", 1), 1);
    let update = proxy
        .add_upstream("sub", &upstream(TransportKind::Http1, false, "two", 2))
        .unwrap();
    let plan = &update.pools[0];
    let e = rejection(pool_addresses(
        plan,
        vec![Ok(vec!["1.1.1.1:1".to_string()]), Err("no such host".to_string())],
    ));
    assert_eq!(e.code, codes::INVALID_PROXY_OPTIONS);
    assert_eq!(e.message, "Failed to resolve upstream 'two:2': no such host");
    let e = rejection(pool_addresses(plan, vec![Ok(vec![]), Ok(vec![])]));
    assert_eq!(
        e.message,
        "Failed to resolve upstream 'one:1': no addresses were returned"
    );
    let addresses = pool_addresses(
        plan,
        vec![Ok(vec!["a".to_string(), "b".to_string()]), Ok(vec!["c".to_string()])],
    )
    .unwrap();
    assert_eq!(addresses, vec!["a".to_string(), "b".to_string(), "c".to_string()]);
}

#[test]
fn load_balancer_that_is_not_built_is_rejected() {
    let e = rejection(finish_pool::<u32>(&vec!["a".to_string()], Err("why".to_string())));
    assert_eq!(e.code, codes::INVALID_PROXY_OPTIONS);
    assert_eq!(e.message, "Failed to build load balancer: why");
}

#[test]
fn update_of_an_application_that_is_gone_changes_nothing() {
    let mut proxy = proxy();
    let u = upstream(TransportKind::Http1, false, "h", 1);
    let mut update = proxy.add_upstream("sub", &u).unwrap();
    let pools = built(&update, 1);
    update.app_name = "gone".to_string();
    let e = rejection(proxy.commit_update(update, pools));
    assert_eq!(e.code, codes::UNKNOWN_APPLICATION);
    assert_eq!(proxy.pools.len(), 0);
}

fn port_options(kind: &str, transport: &str, hostname: &str, port: u32) -> UpstreamOptions {
    UpstreamOptions::Port(PortUpstreamOptions {
        kind: kind.to_string(),
        transport: transport.to_string(),
        secure: true,
        hostname: hostname.to_string(),
        port,
    })
}

#[test]
fn port_upstreams_are_read() {
    let u = parse_port_upstream(port_options("port", "http2", "h", 65535)).unwrap();
    assert_eq!(u.transport, TransportKind::Http2);
    assert!(u.secure);
    assert_eq!((u.hostname.as_str(), u.port), ("h", 65535));
    let transport = |name| parse_port_upstream(port_options("port", name, "h", 1)).unwrap().transport;
    assert_eq!(transport("http"), TransportKind::Http1);
    assert_eq!(transport("ws"), TransportKind::Ws);
}

#[test]
fn bad_port_upstreams_are_refused() {
    let refused = |o| parse_port_upstream(o).unwrap_err();
    let e = refused(port_options("tcp", "http", "h", 1));
    assert_eq!((e.class, e.code), (ErrorClass::Error, codes::UNSUPPORTED_UPSTREAM_TYPE));
    assert_eq!(e.message, "Unsupported upstream type 'tcp'");
    let e = refused(port_options("port", "h3", "h", 1));
    assert_eq!((e.class, e.code), (ErrorClass::TypeError, codes::INVALID_PROXY_OPTIONS));
    assert_eq!(e.message, "Unknown upstream transport 'h3'");
    let e = refused(port_options("port", "http", "h", 0));
    assert_eq!(e.message, "PortUpstreamOptions.port must be in range 1..=65535");
    let e = refused(port_options("port", "http", "h", 65536));
    assert_eq!(e.message, "PortUpstreamOptions.port must be in range 1..=65535");
    let e = refused(port_options("port", "http", "", 1));
    assert_eq!(e.message, "PortUpstreamOptions.hostname must be non-empty");
}

#[test]
fn unix_upstreams_are_not_supported() {
    for (kind, message) in [
        ("unix", "unix_socket upstreams are not supported"),
        ("unix_socket", "unix_socket upstreams are not supported"),
        ("pipe", "Unsupported upstream type 'pipe'"),
    ] {
        let e = parse_port_upstream(UpstreamOptions::Unix(UnixSocketUpstreamOptions {
            kind: kind.to_string(),
            transport: "http".to_string(),
            secure: false,
            path: "/tmp/s".to_string(),
        }))
        .unwrap_err();
        assert_eq!(e.code, codes::UNSUPPORTED_UPSTREAM_TYPE);
        assert_eq!(e.message, message);
    }
}

#[test]
fn services_are_named_after_their_pool() {
    assert_eq!(lb_service_name("a", TransportKind::Http1), "lb:a:http");
    assert_eq!(lb_service_name("a", TransportKind::Http2), "lb:a:http2");
    assert_eq!(lb_service_name("a", TransportKind::Ws), "lb:a:ws");
}

#[test]
fn start_checks_every_pool() {
    let mut proxy = proxy();
    add(&mut proxy, "sub", &upstream(TransportKind::Http1, false, "h", 1), 1);
    add(&mut proxy, "path", &upstream(TransportKind::Ws, false, "h", 1), 2);
    let plan = proxy.start().unwrap().unwrap();
    assert_eq!(plan.listen, "127.0.0.1:0");
    assert!(plan.tls.is_none());
    let mut tasks = proxy.lb_tasks();
    tasks.sort();
    assert_eq!(
        tasks,
        vec![
            ("lb:path:ws".to_string(), Arc::new(2)),
            ("lb:sub:http".to_string(), Arc::new(1)),
        ]
    );
    // A second call waits for the same start.
    assert!(proxy.start().unwrap().is_none());
}

#[test]
fn pools_that_change_during_a_start_are_checked() {
    let mut proxy = proxy();
    let old = upstream(TransportKind::Ws, false, "h", 1);
    add(&mut proxy, "sub", &old, 1);
    assert!(proxy.start().unwrap().is_some());
    // While the start is under way, no service changes.
    let changes = add(
        &mut proxy,
        "sub",
        &upstream(TransportKind::Http1, false, "h", 2),
        5,
    );
    assert!(!changes.is_running);
    let changes = remove(&mut proxy, "sub", &old, 9);
    assert!(!changes.is_running);
    // The start runs the checks of the pools that are there when it finishes.
    assert_eq!(proxy.lb_tasks(), vec![("lb:sub:http".to_string(), Arc::new(9))]);
    let (result, _) = proxy.lifecycle.start_finished(address());
    assert!(result.is_ok());
    let routed = proxy.router.config.apps.get("sub").unwrap();
    assert_eq!(routed.http1.as_ref().map(|pool| *pool.lb), Some(9));
    assert!(routed.ws.is_none());
    // From then on updates come with their checks.
    let changes = add(
        &mut proxy,
        "path",
        &upstream(TransportKind::Http2, false, "h", 1),
        11,
    );
    assert!(changes.is_running);
    assert_eq!(
        changes.to_upsert,
        vec![("lb:path:http2".to_string(), Arc::new(11))]
    );
}

#[test]
fn running_proxy_tells_its_address_and_changes_its_services() {
    let mut proxy = proxy();
    assert!(proxy.start().unwrap().is_some());
    assert!(proxy.address().is_none());
    let (result, told) = proxy.lifecycle.start_finished(address());
    assert!(result.is_ok());
    assert!(matches!(told, Some(StartStatus::Ready(Ok(())))));
    let shown = proxy.address().unwrap();
    assert_eq!((shown.hostname.as_str(), shown.port), ("127.0.0.1", 3000));
    let changes = add(
        &mut proxy,
        "sub",
        &upstream(TransportKind::Http1, false, "h", 1),
        1,
    );
    assert!(changes.is_running);
    let e = match proxy.start() {
        Ok(_) => panic!("it is refused"),
        Err(e) => e,
    };
    assert_eq!((e.code, e.message.as_str()), (codes::ALREADY_STARTED, "Proxy is already started"));
    assert_eq!(
        proxy.stop().unwrap(),
        StopStep::Begin {
            start_under_way: false
        }
    );
    assert!(proxy.address().is_none());
    let e = match proxy.start() {
        Ok(_) => panic!("it is refused"),
        Err(e) => e,
    };
    assert_eq!((e.code, e.message.as_str()), (codes::ALREADY_STARTED, "Proxy is stopping"));
    assert_eq!(proxy.stop().unwrap(), StopStep::Wait);
    assert_eq!(proxy.lifecycle.stop_finished(), Some(StopStatus::Ready));
    assert_eq!(proxy.stop().unwrap(), StopStep::Done);
    assert!(proxy.start().unwrap().is_some());
}

#[test]
fn failed_start_is_told_to_all_and_can_be_tried_again() {
    let mut lifecycle = Lifecycle::new();
    assert_eq!(lifecycle.start().unwrap(), StartStep::Begin);
    assert_eq!(lifecycle.start().unwrap(), StartStep::Wait);
    let error = listen_error("1.2.3.4:5", SetupFailure::Bind("in use".to_string()));
    let told = lifecycle.start_failed(&error).unwrap();
    let outcome = start_outcome(&told).unwrap().unwrap_err();
    assert_eq!(outcome.code, codes::LISTEN_BIND_FAILED);
    assert_eq!(outcome.message, "Failed to bind listener on '1.2.3.4:5': in use");
    assert!(lifecycle.start_failed(&error).is_none());
    assert_eq!(lifecycle.start().unwrap(), StartStep::Begin);
}

#[test]
fn stop_cancels_a_start() {
    let mut lifecycle = Lifecycle::new();
    lifecycle.start().unwrap();
    assert_eq!(
        lifecycle.stop().unwrap(),
        StopStep::Begin {
            start_under_way: true
        }
    );
    let (result, told) = lifecycle.start_finished(address());
    let e = result.unwrap_err();
    assert_eq!(e.code, "GenericFailure");
    assert_eq!(e.message, "Proxy start was cancelled while stopping");
    assert!(matches!(told, Some(StartStatus::Ready(Err(_)))));
    lifecycle.start_cancelled();
    assert!(!lifecycle.is_running());
    assert_eq!(lifecycle.stop_finished(), Some(StopStatus::Ready));
    assert_eq!(lifecycle.stop_finished(), None);
}

#[test]
fn late_steps_of_an_earlier_start_do_not_end_a_new_one() {
    let mut lifecycle = Lifecycle::new();
    lifecycle.start().unwrap();
    lifecycle.stop().unwrap();
    assert!(lifecycle.start_finished(address()).0.is_err());
    assert_eq!(lifecycle.stop_finished(), Some(StopStatus::Ready));
    assert_eq!(lifecycle.start().unwrap(), StartStep::Begin);
    // The earlier start ends its services only now, and an earlier stop reports again.
    lifecycle.start_cancelled();
    assert_eq!(lifecycle.stop_finished(), None);
    assert_eq!(lifecycle.start().unwrap(), StartStep::Wait);
    let (result, told) = lifecycle.start_finished(address());
    assert!(result.is_ok());
    assert!(matches!(told, Some(StartStatus::Ready(Ok(())))));
    lifecycle.start_cancelled();
    assert_eq!(lifecycle.stop_finished(), None);
    assert!(lifecycle.is_running());
    assert_eq!(lifecycle.address().unwrap().port, 3000);
}

#[test]
fn start_that_fails_during_a_stop_leaves_the_stop_under_way() {
    let mut lifecycle = Lifecycle::new();
    lifecycle.start().unwrap();
    lifecycle.stop().unwrap();
    let error = listen_error("1.2.3.4:5", SetupFailure::Bind("in use".to_string()));
    assert!(lifecycle.start_failed(&error).is_some());
    let e = lifecycle.start().unwrap_err();
    assert_eq!((e.code, e.message.as_str()), (codes::ALREADY_STARTED, "Proxy is stopping"));
    assert_eq!(lifecycle.stop().unwrap(), StopStep::Wait);
    assert_eq!(lifecycle.stop_finished(), Some(StopStatus::Ready));
    assert_eq!(lifecycle.start().unwrap(), StartStep::Begin);
}

#[test]
fn cancelled_start_leaves_the_stop_to_end() {
    let mut lifecycle = Lifecycle::new();
    lifecycle.start().unwrap();
    lifecycle.stop().unwrap();
    assert!(lifecycle.start_finished(address()).0.is_err());
    lifecycle.start_cancelled();
    let e = lifecycle.start().unwrap_err();
    assert_eq!(e.message, "Proxy is stopping");
    assert_eq!(lifecycle.stop().unwrap(), StopStep::Wait);
    assert_eq!(lifecycle.stop_finished(), Some(StopStatus::Ready));
    assert_eq!(lifecycle.stop().unwrap(), StopStep::Done);
}

#[test]
fn waiting_goes_on_while_nothing_is_known() {
    assert!(start_outcome(&StartStatus::Pending).is_none());
    assert!(start_outcome(&StartStatus::Ready(Ok(()))).unwrap().is_ok());
    assert!(!stop_outcome(StopStatus::Pending));
    assert!(stop_outcome(StopStatus::Ready));
    assert_eq!(
        start_channel_closed().message,
        "Proxy start channel closed unexpectedly"
    );
    assert_eq!(
        stop_channel_closed().message,
        "Proxy stop channel closed unexpectedly"
    );
}

#[test]
fn listener_failures_are_told_apart() {
    assert_eq!(
        listen_error("l", SetupFailure::Address("r".to_string())).message,
        "Failed to read bound listener address for 'l': r"
    );
    assert_eq!(
        listen_error("l", SetupFailure::Nonblocking("r".to_string())).message,
        "Failed to set listener nonblocking: r"
    );
    let tls = ListenerTlsOptionsParsed {
        cert_path: "c".to_string(),
        key_path: "k".to_string(),
        enable_h2: false,
    };
    let e = tls_error(&tls, "r");
    assert_eq!(e.code, codes::INVALID_PROXY_OPTIONS);
    assert_eq!(e.message, "Failed to configure TLS using cert 'c' and key 'k': r");
}
