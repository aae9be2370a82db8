//! Where a request goes: its application, the pool that serves it, and the peer to connect to.
//!
//! Everything here is generic over `L`, the load balancer of a pool, which is only handed on.

use std::borrow::Cow;
use std::sync::Arc;

use vstd::prelude::*;
use vstd::string::*;

use crate::headers::{
    extract_cookie_value, extract_header_value, extract_host, request_cookie_key,
    request_header_key, request_host,
};
use crate::lb::{BackendSet, TransportKind};
use crate::options::opt_text;
use crate::request::{
    extract_first_path_segment, first_segment, strip_first_path_segment, without_segment,
};
use crate::sticky::{
    affinity, generated_key, next, set_cookie, AffinityEntry, AffinityKeyView, StickyModel,
    StickySessionConfig, StickySessionState,
};
use crate::table::Table;
use crate::text;

pub mod laws;

verus! {

/// A pool of upstreams: one per application and transport.
pub struct PoolConfig<L> {
    pub lb: Arc<L>,
    /// Whether connections to the upstreams use TLS.
    pub secure: bool,
    /// The name that a secure upstream's certificate must have.
    pub verify_hostname: String,
    /// The addresses that the pool balances over.
    pub backends: Arc<BackendSet>,
}

/// The mathematical form of a [`PoolConfig`].
pub struct Pool<L> {
    pub lb: L,
    pub secure: bool,
    pub verify_hostname: Seq<char>,
    pub backends: Set<Seq<char>>,
}

impl<L> View for PoolConfig<L> {
    type V = Pool<L>;

    open spec fn view(&self) -> Pool<L> {
        Pool {
            lb: *self.lb,
            secure: self.secure,
            verify_hostname: self.verify_hostname@,
            backends: self.backends@,
        }
    }
}

impl<L> Clone for PoolConfig<L> {
    fn clone(&self) -> (r: Self)
        ensures
            r@ == self@,
    {
        PoolConfig {
            lb: self.lb.clone(),
            secure: self.secure,
            verify_hostname: self.verify_hostname.clone(),
            backends: self.backends.clone(),
        }
    }
}

/// The pools of an application.
pub struct AppPools<L> {
    pub http1: Option<PoolConfig<L>>,
    pub ws: Option<PoolConfig<L>>,
    pub http2: Option<PoolConfig<L>>,
}

/// The mathematical form of an [`AppPools`].
pub struct Pools<L> {
    pub http1: Option<Pool<L>>,
    pub ws: Option<Pool<L>>,
    pub http2: Option<Pool<L>>,
}

/// The mathematical form of a pool that may be missing.
pub open spec fn opt_pool<L>(pool: Option<PoolConfig<L>>) -> Option<Pool<L>> {
    match pool {
        Some(pool) => Some(pool@),
        None => None,
    }
}

impl<L> View for AppPools<L> {
    type V = Pools<L>;

    open spec fn view(&self) -> Pools<L> {
        Pools {
            http1: opt_pool(self.http1),
            ws: opt_pool(self.ws),
            http2: opt_pool(self.http2),
        }
    }
}

/// How requests find their application, and the pools of the applications.
pub struct RouterConfig<L> {
    /// Applications by host, in small letters.
    pub subdomain_routes: Table<String, String>,
    /// Applications by first path segment.
    pub path_routes: Table<String, String>,
    /// The application of the requests that match no other.
    pub default_app: Option<String>,
    pub apps: Table<String, AppPools<L>>,
}

/// The mathematical form of a [`RouterConfig`].
#[verifier::ext_equal]
pub struct Routes<L> {
    pub subdomains: Map<Seq<char>, Seq<char>>,
    pub paths: Map<Seq<char>, Seq<char>>,
    pub default_app: Option<Seq<char>>,
    pub apps: Map<Seq<char>, Pools<L>>,
}

/// The characters of the strings in a map.
pub open spec fn texts(m: Map<Seq<char>, String>) -> Map<Seq<char>, Seq<char>> {
    m.map_values(|s: String| s@)
}

impl<L> View for RouterConfig<L> {
    type V = Routes<L>;

    open spec fn view(&self) -> Routes<L> {
        Routes {
            subdomains: texts(self.subdomain_routes@),
            paths: texts(self.path_routes@),
            default_app: opt_text(self.default_app),
            apps: self.apps@.map_values(|pools: AppPools<L>| pools@),
        }
    }
}

impl<L> Routes<L> {
    /// Routes that lead nowhere.
    pub open spec fn none() -> Routes<L> {
        Routes {
            subdomains: Map::empty(),
            paths: Map::empty(),
            default_app: None,
            apps: Map::empty(),
        }
    }
}

impl<L> Default for RouterConfig<L> {
    fn default() -> (r: Self)
        ensures
            r@ == Routes::<L>::none(),
    {
        let r = RouterConfig {
            subdomain_routes: Table::new(),
            path_routes: Table::new(),
            default_app: None,
            apps: Table::new(),
        };
        assert(r@ =~= Routes::<L>::none());
        r
    }
}

/// The application that a request goes to.
pub struct Destination {
    pub app: Seq<char>,
    /// The path segment that is stripped on the way.
    pub rewrite: Option<Seq<char>>,
}

impl<L> Routes<L> {
    /// Where a request goes: its host comes first, then its first path segment, then the default.
    pub open spec fn destination(
        self,
        host: Option<Seq<char>>,
        segment: Option<Seq<char>>,
    ) -> Option<Destination> {
        if host is Some && self.subdomains.contains_key(host->0) {
            Some(Destination { app: self.subdomains[host->0], rewrite: None })
        } else if segment is Some && self.paths.contains_key(segment->0) {
            Some(Destination { app: self.paths[segment->0], rewrite: segment })
        } else {
            match self.default_app {
                Some(app) => Some(Destination { app, rewrite: None }),
                None => None,
            }
        }
    }
}

/// The characters of a string slice that may be missing.
pub open spec fn opt_str(s: Option<&str>) -> Option<Seq<char>> {
    match s {
        Some(s) => Some(s@),
        None => None,
    }
}

/// Finds the application that a request goes to, and the path segment that is stripped on the way.
pub fn resolve_route<L>(
    config: &RouterConfig<L>,
    host: Option<&str>,
    segment: Option<&str>,
) -> (r: Option<(String, Option<String>)>)
    ensures
        config@.destination(opt_str(host), opt_str(segment)) == (match r {
            Some((app, rewrite)) => Some(Destination { app: app@, rewrite: opt_text(rewrite) }),
            None => None,
        }),
{
    if let Some(host) = host {
        if let Some(app) = config.subdomain_routes.get(host) {
            return Some((app.clone(), None));
        }
    }
    if let Some(segment) = segment {
        if let Some(app) = config.path_routes.get(segment) {
            return Some((app.clone(), Some(segment.to_owned())));
        }
    }
    match &config.default_app {
        Some(app) => Some((app.clone(), None)),
        None => None,
    }
}

/// The pool that a request was given, kept so that it is looked up once.
pub struct ResolvedPool<L> {
    pub lb: Arc<L>,
    pub secure: bool,
    pub verify_hostname: String,
    pub is_http2: bool,
    pub transport: TransportKind,
    pub backends: Arc<BackendSet>,
}

/// The mathematical form of a [`ResolvedPool`].
pub struct Resolved<L> {
    pub pool: Pool<L>,
    pub is_http2: bool,
    pub transport: TransportKind,
}

impl<L> View for ResolvedPool<L> {
    type V = Resolved<L>;

    open spec fn view(&self) -> Resolved<L> {
        Resolved {
            pool: Pool {
                lb: *self.lb,
                secure: self.secure,
                verify_hostname: self.verify_hostname@,
                backends: self.backends@,
            },
            is_http2: self.is_http2,
            transport: self.transport,
        }
    }
}

impl<L> Pools<L> {
    /// The pool that serves a request.
    ///
    /// An upgrade is a mechanism of HTTP/1.1, so an upgrade request goes to the HTTP/1.1 pool and to
    /// no other. Other requests prefer HTTP/2.
    pub open spec fn serving(self, is_upgrade: bool) -> Option<Resolved<L>> {
        if !is_upgrade && self.http2 is Some {
            Some(Resolved { pool: self.http2->0, is_http2: true, transport: TransportKind::Http2 })
        } else if self.http1 is Some {
            Some(Resolved { pool: self.http1->0, is_http2: false, transport: TransportKind::Http1 })
        } else {
            None
        }
    }
}

fn resolved<L>(pool: &PoolConfig<L>, transport: TransportKind) -> (r: ResolvedPool<L>)
    ensures
        r@ == (Resolved { pool: pool@, is_http2: transport is Http2, transport }),
{
    ResolvedPool {
        lb: pool.lb.clone(),
        secure: pool.secure,
        verify_hostname: pool.verify_hostname.clone(),
        is_http2: transport == TransportKind::Http2,
        transport,
        backends: pool.backends.clone(),
    }
}

/// The mathematical form of a resolved pool that may be missing.
pub open spec fn opt_resolved<L>(pool: Option<ResolvedPool<L>>) -> Option<Resolved<L>> {
    match pool {
        Some(pool) => Some(pool@),
        None => None,
    }
}

/// Picks the pool that serves a request.
pub fn resolve_pool<L>(pools: &AppPools<L>, is_upgrade: bool) -> (r: Option<ResolvedPool<L>>)
    ensures
        opt_resolved(r) == pools@.serving(is_upgrade),
{
    if !is_upgrade {
        if let Some(pool) = &pools.http2 {
            return Some(resolved(pool, TransportKind::Http2));
        }
    }
    match &pools.http1 {
        Some(pool) => Some(resolved(pool, TransportKind::Http1)),
        None => None,
    }
}

/// Why a request cannot be served.
#[derive(Debug, Clone, Copy, PartialEq, Eq, Structural)]
pub enum FailureHint {
    MissingApplication,
    MissingWsPool,
    MissingUpstreamPool,
    UnhealthyUpstream,
}

/// What is kept of a request between the steps of serving it.
pub struct RouterCtx<L> {
    pub app_name: Option<String>,
    pub path_rewrite_segment: Option<String>,
    pub is_upgrade: bool,
    /// The pool that [`request_filter`] picked.
    pub resolved_pool: Option<ResolvedPool<L>>,
    pub selected_transport: Option<TransportKind>,
    pub affinity_key: Option<String>,
    pub should_set_cookie: bool,
    pub sticky_retry_attempted: bool,
    pub failure_hint: Option<FailureHint>,
}

/// The mathematical form of a [`RouterCtx`].
#[verifier::ext_equal]
pub struct Ctx<L> {
    pub app_name: Option<Seq<char>>,
    pub path_rewrite_segment: Option<Seq<char>>,
    pub is_upgrade: bool,
    pub resolved_pool: Option<Resolved<L>>,
    pub selected_transport: Option<TransportKind>,
    pub affinity_key: Option<Seq<char>>,
    pub should_set_cookie: bool,
    pub sticky_retry_attempted: bool,
    pub failure_hint: Option<FailureHint>,
}

impl<L> View for RouterCtx<L> {
    type V = Ctx<L>;

    open spec fn view(&self) -> Ctx<L> {
        Ctx {
            app_name: opt_text(self.app_name),
            path_rewrite_segment: opt_text(self.path_rewrite_segment),
            is_upgrade: self.is_upgrade,
            resolved_pool: opt_resolved(self.resolved_pool),
            selected_transport: self.selected_transport,
            affinity_key: opt_text(self.affinity_key),
            should_set_cookie: self.should_set_cookie,
            sticky_retry_attempted: self.sticky_retry_attempted,
            failure_hint: self.failure_hint,
        }
    }
}

impl<L> Ctx<L> {
    /// What is known of a request at first.
    pub open spec fn fresh() -> Ctx<L> {
        Ctx {
            app_name: None,
            path_rewrite_segment: None,
            is_upgrade: false,
            resolved_pool: None,
            selected_transport: None,
            affinity_key: None,
            should_set_cookie: false,
            sticky_retry_attempted: false,
            failure_hint: None,
        }
    }
}

impl<L> Default for RouterCtx<L> {
    fn default() -> (r: Self)
        ensures
            r@ == Ctx::<L>::fresh(),
    {
        RouterCtx {
            app_name: None,
            path_rewrite_segment: None,
            is_upgrade: false,
            resolved_pool: None,
            selected_transport: None,
            affinity_key: None,
            should_set_cookie: false,
            sticky_retry_attempted: false,
            failure_hint: None,
        }
    }
}

/// The type of an error that ends a request.
#[derive(Debug, Clone, Copy, PartialEq, Eq, Structural)]
pub enum FilterErrorKind {
    /// The request is answered with this status.
    HttpStatus(u16),
    InternalError,
}

/// An error that ends a request.
#[derive(Debug)]
pub struct FilterError {
    pub kind: FilterErrorKind,
    pub message: &'static str,
}

/// The mathematical form of a [`FilterError`].
pub struct Refusal {
    pub kind: FilterErrorKind,
    pub message: Seq<char>,
}

impl View for FilterError {
    type V = Refusal;

    open spec fn view(&self) -> Refusal {
        Refusal { kind: self.kind, message: self.message@ }
    }
}

/// A refusal with a status.
pub open spec fn status_refusal(status: u16, message: Seq<char>) -> Refusal {
    Refusal { kind: FilterErrorKind::HttpStatus(status), message }
}

fn status_error(status: u16, message: &'static str) -> (r: FilterError)
    ensures
        r@ == status_refusal(status, message@),
{
    FilterError { kind: FilterErrorKind::HttpStatus(status), message }
}

/// The mathematical form of a result that may be refused.
pub open spec fn outcome<T>(r: Result<T, FilterError>) -> Result<T, Refusal> {
    match r {
        Ok(v) => Ok(v),
        Err(e) => Err(e@),
    }
}

/// The mathematical form of the sticky sessions.
#[verifier::ext_equal]
pub struct Sessions {
    pub settings: StickySessionConfig,
    pub model: StickyModel,
}

/// The mathematical form of sticky sessions that may be off.
pub open spec fn sessions(sticky: Option<StickySessionState>) -> Option<Sessions> {
    match sticky {
        Some(s) => Some(Sessions { settings: s.settings(), model: s.model() }),
        None => None,
    }
}

/// Whether sticky sessions that may be off are well-formed.
pub open spec fn sticky_wf(sticky: Option<StickySessionState>) -> bool {
    sticky matches Some(s) ==> s.wf()
}

impl Sessions {
    /// What holds of the sessions at all times: see [`StickySessionState::law_models_are_valid`].
    pub open spec fn valid(self) -> bool {
        self.model.valid() && self.model.entries.len() <= self.settings.max_entries
    }

    /// The affinity key that a request brings: its cookie's, or else its header's.
    pub open spec fn brought_key(self, headers: http::HeaderMap<http::HeaderValue>) -> Option<
        Seq<char>,
    > {
        match request_cookie_key(headers, self.settings.cookie_name@) {
            Some(key) => Some(key),
            None => request_header_key(headers, self.settings.header_name@),
        }
    }

    /// The affinity key of a request: the one that it brings, or else one that is made up.
    pub open spec fn request_key(
        self,
        headers: http::HeaderMap<http::HeaderValue>,
        now_nanos: u128,
    ) -> Seq<char> {
        match self.brought_key(headers) {
            Some(key) => key,
            None => generated_key(now_nanos, self.model.next_key),
        }
    }

    /// The sessions after a request got its affinity key.
    pub open spec fn after_key(self, headers: http::HeaderMap<http::HeaderValue>) -> Sessions {
        if self.brought_key(headers) is Some {
            self
        } else {
            Sessions {
                model: StickyModel { next_key: next(self.model.next_key), ..self.model },
                ..self
            }
        }
    }
}

/// Gives a request its affinity key.
pub fn choose_affinity_key(
    sticky: &mut StickySessionState,
    headers: &http::HeaderMap<http::HeaderValue>,
    now_nanos: u128,
) -> (r: String)
    requires
        old(sticky).wf(),
    ensures
        final(sticky).wf(),
        ({
            let before = Sessions { settings: old(sticky).settings(), model: old(sticky).model() };
            &&& r@ == before.request_key(*headers, now_nanos)
            &&& before.after_key(*headers) == (Sessions {
                settings: final(sticky).settings(),
                model: final(sticky).model(),
            })
        }),
{
    let cookie_key = extract_cookie_value(headers, sticky.config().cookie_name.as_str());
    if let Some(key) = cookie_key {
        return key;
    }
    let header_key = extract_header_value(headers, sticky.config().header_name.as_str());
    if let Some(key) = header_key {
        return key;
    }
    sticky.generate_affinity_key(now_nanos)
}

/// What a step of serving a request leaves.
pub struct Step<L, T> {
    pub ctx: Ctx<L>,
    pub sessions: Option<Sessions>,
    pub result: Result<T, Refusal>,
}

/// A request of which it is known which application it goes to.
pub open spec fn filtered_for<L>(
    routes: Routes<L>,
    sessions: Option<Sessions>,
    headers: http::HeaderMap<http::HeaderValue>,
    to: Destination,
    is_upgrade: bool,
    now_nanos: u128,
    ctx: Ctx<L>,
) -> Step<L, bool> {
    let served = if routes.apps.contains_key(to.app) {
        routes.apps[to.app].serving(is_upgrade)
    } else {
        None
    };
    let pool = if served is Some {
        served
    } else {
        ctx.resolved_pool
    };
    let ctx = Ctx {
        app_name: Some(to.app),
        path_rewrite_segment: to.rewrite,
        is_upgrade,
        resolved_pool: pool,
        ..ctx
    };
    let keyed = sessions is Some && pool is Some;
    let ctx = if keyed {
        Ctx {
            affinity_key: Some(sessions->0.request_key(headers, now_nanos)),
            should_set_cookie: true,
            ..ctx
        }
    } else {
        ctx
    };
    let sessions = if keyed {
        Some(sessions->0.after_key(headers))
    } else {
        sessions
    };
    if is_upgrade && routes.apps.contains_key(to.app) && served is None {
        Step {
            ctx: Ctx { failure_hint: Some(FailureHint::MissingWsPool), ..ctx },
            sessions,
            result: Err(status_refusal(503, "no ws pool available for upgrade request"@)),
        }
    } else if pool is None {
        Step {
            ctx: Ctx { failure_hint: Some(FailureHint::MissingUpstreamPool), ..ctx },
            sessions,
            result: Err(status_refusal(503, "no upstream pool resolved"@)),
        }
    } else {
        Step {
            ctx: Ctx { selected_transport: Some(pool->0.transport), ..ctx },
            sessions,
            result: Ok(false),
        }
    }
}

/// What [`request_filter`] does with a request.
pub open spec fn filtered<L>(
    routes: Routes<L>,
    sessions: Option<Sessions>,
    headers: http::HeaderMap<http::HeaderValue>,
    path: Seq<char>,
    is_upgrade: bool,
    now_nanos: u128,
    ctx: Ctx<L>,
) -> Step<L, bool> {
    match routes.destination(request_host(headers), first_segment(path)) {
        None => Step {
            ctx: Ctx { failure_hint: Some(FailureHint::MissingApplication), ..ctx },
            sessions,
            result: Err(status_refusal(404, "no application matched"@)),
        },
        Some(to) => filtered_for(routes, sessions, headers, to, is_upgrade, now_nanos, ctx),
    }
}

/// Finds a request's application and pool, and gives it an affinity key.
///
/// `Ok(false)` lets the request go on to its upstream.
pub fn request_filter<L>(
    config: &RouterConfig<L>,
    sticky: &mut Option<StickySessionState>,
    headers: &http::HeaderMap<http::HeaderValue>,
    path: &str,
    is_upgrade: bool,
    now_nanos: u128,
    ctx: &mut RouterCtx<L>,
) -> (r: Result<bool, FilterError>)
    requires
        sticky_wf(*old(sticky)),
    ensures
        sticky_wf(*final(sticky)),
        filtered(
            config@,
            sessions(*old(sticky)),
            *headers,
            path@,
            is_upgrade,
            now_nanos,
            old(ctx)@,
        ) == (Step {
            ctx: final(ctx)@,
            sessions: sessions(*final(sticky)),
            result: outcome(r),
        }),
{
    let host = extract_host(headers);
    let segment = extract_first_path_segment(path);
    let host = match &host {
        Some(host) => Some(host.as_str()),
        None => None,
    };
    let (app_name, rewrite_segment) = match resolve_route(config, host, segment) {
        Some(found) => found,
        None => {
            ctx.failure_hint = Some(FailureHint::MissingApplication);
            return Err(status_error(404, "no application matched"));
        },
    };
    let mut served = true;
    let mut known = false;
    if let Some(pools) = config.apps.get(app_name.as_str()) {
        known = true;
        let pool = resolve_pool(pools, is_upgrade);
        served = pool.is_some();
        if served {
            ctx.resolved_pool = pool;
        }
    }
    ctx.app_name = Some(app_name);
    ctx.path_rewrite_segment = rewrite_segment;
    ctx.is_upgrade = is_upgrade;
    if ctx.resolved_pool.is_some() {
        if let Some(sticky) = sticky {
            ctx.affinity_key = Some(choose_affinity_key(sticky, headers, now_nanos));
            // The cookie is sent again with every response, so that its age starts anew.
            ctx.should_set_cookie = true;
        }
    }
    if is_upgrade && known && !served {
        ctx.failure_hint = Some(FailureHint::MissingWsPool);
        return Err(status_error(503, "no ws pool available for upgrade request"));
    }
    match &ctx.resolved_pool {
        Some(pool) => {
            ctx.selected_transport = Some(pool.transport);
            Ok(false)
        },
        None => {
            ctx.failure_hint = Some(FailureHint::MissingUpstreamPool);
            Err(status_error(503, "no upstream pool resolved"))
        },
    }
}

/// How many backends a load balancer may try when it selects one.
pub const SELECT_ATTEMPTS: usize = 8;

/// An upstream to connect to.
#[derive(Debug)]
pub struct Peer {
    pub address: String,
    /// Whether the connection uses TLS.
    pub tls: bool,
    /// The name that is asked for, and that the certificate must have.
    pub sni: String,
    /// The highest and the lowest HTTP version that is accepted.
    pub http_version: (u8, u8),
}

/// The mathematical form of a [`Peer`].
pub struct PeerView {
    pub address: Seq<char>,
    pub tls: bool,
    pub sni: Seq<char>,
    pub http_version: (u8, u8),
}

impl View for Peer {
    type V = PeerView;

    open spec fn view(&self) -> PeerView {
        PeerView {
            address: self.address@,
            tls: self.tls,
            sni: self.sni@,
            http_version: self.http_version,
        }
    }
}

impl<L> Resolved<L> {
    /// The peer at one of the pool's addresses.
    ///
    /// An HTTP/2 upstream without TLS cannot negotiate the version, so it is fixed either way.
    pub open spec fn peer(self, address: Seq<char>) -> PeerView {
        PeerView {
            address,
            tls: self.pool.secure,
            sni: self.pool.verify_hostname,
            http_version: if self.is_http2 {
                (2, 2)
            } else {
                (1, 1)
            },
        }
    }
}

impl<L> ResolvedPool<L> {
    fn peer(&self, address: String) -> (r: Peer)
        ensures
            r@ == self@.peer(address@),
    {
        Peer {
            address,
            tls: self.secure,
            sni: self.verify_hostname.clone(),
            http_version: if self.is_http2 {
                (2, 2)
            } else {
                (1, 1)
            },
        }
    }
}

/// How the upstream of a request is found.
pub enum PeerStep<L> {
    /// The request's affinity key is bound to it.
    Bound(Peer),
    /// The load balancer selects a backend for the key, which [`upstream_selected`] then takes.
    Select { lb: Arc<L>, key: String },
}

/// The mathematical form of a [`PeerStep`].
pub enum PeerPlan<L> {
    Bound(PeerView),
    Select(L, Seq<char>),
}

impl<L> View for PeerStep<L> {
    type V = PeerPlan<L>;

    open spec fn view(&self) -> PeerPlan<L> {
        match self {
            PeerStep::Bound(peer) => PeerPlan::Bound(peer@),
            PeerStep::Select { lb, key } => PeerPlan::Select(**lb, key@),
        }
    }
}

/// The mathematical form of a viewed result that may be refused.
pub open spec fn viewed<T: View>(r: Result<T, FilterError>) -> Result<T::V, Refusal> {
    match r {
        Ok(v) => Ok(v@),
        Err(e) => Err(e@),
    }
}

impl<L> Ctx<L> {
    /// The key under which the request's backend is bound, if it has an affinity key.
    pub open spec fn binding_key(self, transport: TransportKind) -> Option<AffinityKeyView> {
        if self.app_name is Some && self.affinity_key is Some {
            Some(affinity(self.app_name->0, transport, self.affinity_key->0))
        } else {
            None
        }
    }

    /// Refused because no pool was resolved.
    pub open spec fn without_pool<T>(self, sessions: Option<Sessions>) -> Step<L, T> {
        Step {
            ctx: Ctx { failure_hint: Some(FailureHint::MissingUpstreamPool), ..self },
            sessions,
            result: Err(status_refusal(503, "no upstream pool resolved"@)),
        }
    }
}

impl Sessions {
    /// The binding that a lookup of `key` finds, if it finds one.
    pub open spec fn found(
        self,
        key: AffinityKeyView,
        allowed: Set<Seq<char>>,
        now: u64,
    ) -> Option<AffinityEntry> {
        self.model.found(key, allowed, now, self.settings.max_entries)
    }

    /// The sessions after a lookup of `key`.
    pub open spec fn after_lookup(
        self,
        key: AffinityKeyView,
        allowed: Set<Seq<char>>,
        now: u64,
    ) -> Sessions {
        Sessions { model: self.model.looked_up(key, allowed, now, self.settings), ..self }
    }

    /// The sessions after `key` was bound to a backend.
    pub open spec fn after_bind(self, key: AffinityKeyView, backend: String, now: u64) -> Sessions {
        Sessions {
            model: self.model.bound_within(
                key,
                AffinityEntry { backend, expires_at: (now + self.settings.ttl()) as u64 },
                now,
                self.settings.max_entries,
            ),
            ..self
        }
    }

    /// The sessions after the binding of `key` was dropped.
    pub open spec fn after_remove(self, key: AffinityKeyView) -> Sessions {
        Sessions { model: self.model.unbound(key), ..self }
    }
}

/// Whether a time to live from `now` on can be told.
pub open spec fn in_time(sessions: Option<Sessions>, now: u64) -> bool {
    sessions matches Some(s) ==> now + s.settings.ttl() <= u64::MAX
}

/// What [`upstream_peer`] does with a request.
pub open spec fn peered<L>(sessions: Option<Sessions>, now: u64, ctx: Ctx<L>) -> Step<
    L,
    PeerPlan<L>,
> {
    match ctx.resolved_pool {
        None => ctx.without_pool(sessions),
        Some(pool) => {
            let key = ctx.binding_key(pool.transport);
            if sessions is Some && key is Some {
                Step {
                    ctx,
                    sessions: Some(sessions->0.after_lookup(key->0, pool.pool.backends, now)),
                    result: Ok(
                        match sessions->0.found(key->0, pool.pool.backends, now) {
                            Some(entry) => PeerPlan::Bound(pool.peer(entry.backend@)),
                            None => PeerPlan::Select(pool.pool.lb, ctx.affinity_key->0),
                        },
                    ),
                }
            } else {
                Step { ctx, sessions, result: Ok(PeerPlan::Select(pool.pool.lb, ""@)) }
            }
        },
    }
}

/// Finds the upstream of a request, as far as its affinity key tells.
pub fn upstream_peer<L>(
    sticky: &mut Option<StickySessionState>,
    now: u64,
    ctx: &mut RouterCtx<L>,
) -> (r: Result<PeerStep<L>, FilterError>)
    requires
        sticky_wf(*old(sticky)),
        in_time(sessions(*old(sticky)), now),
    ensures
        sticky_wf(*final(sticky)),
        peered(sessions(*old(sticky)), now, old(ctx)@) == (Step {
            ctx: final(ctx)@,
            sessions: sessions(*final(sticky)),
            result: viewed(r),
        }),
{
    let pool = match &ctx.resolved_pool {
        Some(pool) => pool,
        None => {
            ctx.failure_hint = Some(FailureHint::MissingUpstreamPool);
            return Err(status_error(503, "no upstream pool resolved"));
        },
    };
    if let Some(sticky) = sticky {
        if let (Some(app_name), Some(affinity_key)) = (&ctx.app_name, &ctx.affinity_key) {
            let mapped = sticky.lookup(
                app_name.as_str(),
                pool.transport,
                affinity_key.as_str(),
                &pool.backends,
                now,
            );
            return match mapped {
                Some(address) => Ok(PeerStep::Bound(pool.peer(address))),
                None => Ok(
                    PeerStep::Select { lb: pool.lb.clone(), key: affinity_key.clone() },
                ),
            };
        }
    }
    Ok(PeerStep::Select { lb: pool.lb.clone(), key: "".to_owned() })
}

/// What [`upstream_selected`] does with a request.
pub open spec fn selected_for<L>(
    sessions: Option<Sessions>,
    selected: Option<String>,
    now: u64,
    ctx: Ctx<L>,
) -> Step<L, PeerView> {
    match ctx.resolved_pool {
        None => ctx.without_pool(sessions),
        Some(pool) => match selected {
            None => Step {
                ctx: Ctx { failure_hint: Some(FailureHint::UnhealthyUpstream), ..ctx },
                sessions,
                result: Err(status_refusal(503, "no healthy upstreams available"@)),
            },
            Some(address) => {
                let key = ctx.binding_key(pool.transport);
                Step {
                    ctx,
                    sessions: if sessions is Some && key is Some {
                        Some(sessions->0.after_bind(key->0, address, now))
                    } else {
                        sessions
                    },
                    result: Ok(pool.peer(address@)),
                }
            },
        },
    }
}

/// Takes the backend that the load balancer selected, if it found a healthy one, and binds the
/// request's affinity key to it.
pub fn upstream_selected<L>(
    sticky: &mut Option<StickySessionState>,
    selected: Option<String>,
    now: u64,
    ctx: &mut RouterCtx<L>,
) -> (r: Result<Peer, FilterError>)
    requires
        sticky_wf(*old(sticky)),
        in_time(sessions(*old(sticky)), now),
    ensures
        sticky_wf(*final(sticky)),
        selected_for(sessions(*old(sticky)), selected, now, old(ctx)@) == (Step {
            ctx: final(ctx)@,
            sessions: sessions(*final(sticky)),
            result: viewed(r),
        }),
{
    let pool = match &ctx.resolved_pool {
        Some(pool) => pool,
        None => {
            ctx.failure_hint = Some(FailureHint::MissingUpstreamPool);
            return Err(status_error(503, "no upstream pool resolved"));
        },
    };
    let address = match selected {
        Some(address) => address,
        None => {
            ctx.failure_hint = Some(FailureHint::UnhealthyUpstream);
            return Err(status_error(503, "no healthy upstreams available"));
        },
    };
    if let Some(sticky) = sticky {
        if let (Some(app_name), Some(affinity_key)) = (&ctx.app_name, &ctx.affinity_key) {
            sticky.bind(
                app_name.as_str(),
                pool.transport,
                affinity_key.as_str(),
                address.clone(),
                now,
            );
        }
    }
    Ok(pool.peer(address))
}

/// What [`response_filter`] does with a response.
pub open spec fn cookie_sent<L>(sessions: Option<Sessions>, ctx: Ctx<L>) -> Option<Seq<char>> {
    if sessions is Some && ctx.affinity_key is Some && ctx.should_set_cookie {
        Some(set_cookie(sessions->0.settings, ctx.affinity_key->0))
    } else {
        None
    }
}

/// The `Set-Cookie` header that is appended to a response, if any.
pub fn response_filter<L>(sticky: &Option<StickySessionState>, ctx: &RouterCtx<L>) -> (r: Option<
    String,
>)
    ensures
        opt_text(r) == cookie_sent(sessions(*sticky), ctx@),
{
    if !ctx.should_set_cookie {
        return None;
    }
    match (sticky, &ctx.affinity_key) {
        (Some(sticky), Some(affinity_key)) => Some(
            sticky.cookie_header_value(affinity_key.as_str()),
        ),
        _ => None,
    }
}

/// What becomes of a response, given whether its cookie could be appended.
pub fn cookie_appended(appended: bool) -> (r: Result<(), FilterError>)
    ensures
        outcome(r) == (if appended {
            Ok(())
        } else {
            Err(
                Refusal {
                    kind: FilterErrorKind::InternalError,
                    message: "failed to append sticky session cookie"@,
                },
            )
        }),
{
    if appended {
        Ok(())
    } else {
        Err(
            FilterError {
                kind: FilterErrorKind::InternalError,
                message: "failed to append sticky session cookie",
            },
        )
    }
}

/// How a request that failed is answered.
#[derive(Debug, Clone, Copy, PartialEq, Eq, Structural)]
pub struct FailToProxy {
    pub error_code: u16,
    /// Whether an error response is sent.
    pub respond: bool,
    pub can_reuse_downstream: bool,
}

/// The status with which a request that failed is answered: the one that the hint asks for, or
/// else that of the error, or else 500.
pub open spec fn failure_status(hint: Option<FailureHint>, error: FilterErrorKind) -> u16 {
    match hint {
        Some(FailureHint::MissingApplication) => 404,
        Some(_) => 503,
        None => match error {
            FilterErrorKind::HttpStatus(status) => status,
            FilterErrorKind::InternalError => 500,
        },
    }
}

/// Decides how a request that failed is answered.
///
/// An error without a status of its own counts as an internal error.
pub fn fail_to_proxy<L>(ctx: &RouterCtx<L>, error: FilterErrorKind) -> (r: FailToProxy)
    ensures
        r.error_code == failure_status(ctx.failure_hint, error),
        r.respond == (r.error_code > 0),
        !r.can_reuse_downstream,
{
    let error_code: u16 = match ctx.failure_hint {
        Some(FailureHint::MissingApplication) => 404,
        Some(FailureHint::MissingWsPool) | Some(FailureHint::MissingUpstreamPool) | Some(
            FailureHint::UnhealthyUpstream,
        ) => 503,
        None => match error {
            FilterErrorKind::HttpStatus(status) => status,
            FilterErrorKind::InternalError => 500,
        },
    };
    FailToProxy { error_code, respond: error_code > 0, can_reuse_downstream: false }
}

/// What [`fail_to_connect`] does with a request; the result is whether it is tried again.
pub open spec fn disconnected<L>(sessions: Option<Sessions>, ctx: Ctx<L>) -> Step<L, bool> {
    if sessions is Some && ctx.selected_transport is Some && ctx.binding_key(
        ctx.selected_transport->0,
    ) is Some {
        Step {
            ctx: Ctx { sticky_retry_attempted: true, ..ctx },
            sessions: Some(
                sessions->0.after_remove(ctx.binding_key(ctx.selected_transport->0)->0),
            ),
            result: Ok(!ctx.sticky_retry_attempted),
        }
    } else {
        Step { ctx, sessions, result: Ok(false) }
    }
}

/// Drops the binding of a request whose upstream could not be reached, and tells whether the
/// request is tried again, which happens once.
pub fn fail_to_connect<L>(sticky: &mut Option<StickySessionState>, ctx: &mut RouterCtx<L>) -> (r:
    bool)
    requires
        sticky_wf(*old(sticky)),
    ensures
        sticky_wf(*final(sticky)),
        disconnected(sessions(*old(sticky)), old(ctx)@) == (Step::<L, bool> {
            ctx: final(ctx)@,
            sessions: sessions(*final(sticky)),
            result: Ok(r),
        }),
{
    if let Some(sticky) = sticky {
        if let (Some(app_name), Some(transport), Some(affinity_key)) = (
            &ctx.app_name,
            ctx.selected_transport,
            &ctx.affinity_key,
        ) {
            sticky.remove(app_name.as_str(), transport, affinity_key.as_str());
            if !ctx.sticky_retry_attempted {
                ctx.sticky_retry_attempted = true;
                return true;
            }
        }
    }
    false
}

/// An error of the `http` crate.
#[verifier::external_type_specification]
#[verifier::external_body]
pub struct ExHttpError(http::Error);

/// The text of the URI that the `http` crate builds of a path and query, if it accepts them.
pub uninterp spec fn built_uri(path_and_query: Seq<char>) -> Option<Seq<char>>;

/// Builds a URI of a path and query with `http::Uri::builder`, and hands out its text.
///
/// Which characters are accepted is left to the `http` crate. What it accepts that starts with a
/// slash it keeps as it is, up to the first `#`.
#[verifier::external_body]
fn build_uri(path_and_query: &str) -> (r: Result<String, http::Error>)
    ensures
        built_uri(path_and_query@) == (match r {
            Ok(uri) => Some(uri@),
            Err(_) => None,
        }),
        (r matches Ok(uri) && path_and_query@.len() > 0 && path_and_query@[0] == '/') ==> r->Ok_0@
            == path_and_query@.take(text::first_from(path_and_query@, '#', 0)),
{
    match http::Uri::builder().path_and_query(path_and_query).build() {
        Ok(uri) => Ok(uri.to_string()),
        Err(e) => Err(e),
    }
}

/// The refusal of a path that makes no URI.
pub open spec fn rewrite_refusal() -> Refusal {
    Refusal {
        kind: FilterErrorKind::InternalError,
        message: "failed to rewrite upstream uri"@,
    }
}

/// What becomes of a request whose rewritten path made `uri`, or no URI.
pub fn uri_rewritten(uri: Option<String>) -> (r: Result<Option<String>, FilterError>)
    ensures
        (match (uri, r) {
            (Some(uri), Ok(Some(kept))) => kept == uri,
            (None, Err(e)) => e@ == rewrite_refusal(),
            _ => false,
        }),
{
    match uri {
        Some(uri) => Ok(Some(uri)),
        None => Err(
            FilterError {
                kind: FilterErrorKind::InternalError,
                message: "failed to rewrite upstream uri",
            },
        ),
    }
}

/// The path and query that a request has upstream, if they are not those it came with.
pub open spec fn upstream_path(
    segment: Option<Seq<char>>,
    path_and_query: Option<Seq<char>>,
) -> Option<Seq<char>> {
    if segment is Some && path_and_query is Some {
        without_segment(path_and_query->0, segment->0)
    } else {
        None
    }
}

/// The URI that a request is given on its way upstream, if it is not the one it came with.
pub fn upstream_request_filter<L>(ctx: &RouterCtx<L>, path_and_query: Option<&str>) -> (r: Result<
    Option<String>,
    FilterError,
>)
    ensures
        (match upstream_path(ctx@.path_rewrite_segment, opt_str(path_and_query)) {
            None => r matches Ok(uri) && uri is None,
            Some(path) => match r {
                Ok(uri) => {
                    &&& uri is Some
                    &&& built_uri(path) == Some(uri->0@)
                    &&& uri->0@ == path.take(text::first_from(path, '#', 0))
                },
                Err(e) => built_uri(path) is None && e@ == rewrite_refusal(),
            },
        }),
{
    match (&ctx.path_rewrite_segment, path_and_query) {
        (Some(segment), Some(path_and_query)) => {
            match strip_first_path_segment(path_and_query, segment.as_str()) {
                Some(path) => {
                    let path: &str = match &path {
                        Cow::Borrowed(path) => path,
                        Cow::Owned(path) => path.as_str(),
                    };
                    proof {
                        lemma_rewritten_starts_with_slash(path_and_query@, segment@);
                    }
                    match build_uri(path) {
                        Ok(uri) => uri_rewritten(Some(uri)),
                        Err(_) => uri_rewritten(None),
                    }
                },
                None => Ok(None),
            }
        },
        _ => Ok(None),
    }
}

proof fn lemma_rewritten_starts_with_slash(path_and_query: Seq<char>, segment: Seq<char>)
    ensures
        without_segment(path_and_query, segment) matches Some(path) ==> path.len() > 0 && path[0]
            == '/',
{
}

/// The routes in force, and the sticky sessions if they are on.
pub struct Router<L> {
    pub config: Arc<RouterConfig<L>>,
    pub sticky: Option<StickySessionState>,
}

/// The mathematical form of a [`Router`].
#[verifier::ext_equal]
pub struct Routing<L> {
    pub routes: Routes<L>,
    pub sessions: Option<Sessions>,
}

impl<L> View for Router<L> {
    type V = Routing<L>;

    open spec fn view(&self) -> Routing<L> {
        Routing { routes: self.config@, sessions: sessions(self.sticky) }
    }
}

impl<L> Routing<L> {
    /// After the routes were replaced.
    pub open spec fn updated(self, routes: Routes<L>) -> Routing<L> {
        Routing { routes, ..self }
    }

    /// What [`request_filter`] does with a request.
    pub open spec fn filtered(
        self,
        headers: http::HeaderMap<http::HeaderValue>,
        path: Seq<char>,
        is_upgrade: bool,
        now_nanos: u128,
        ctx: Ctx<L>,
    ) -> Step<L, bool> {
        filtered(self.routes, self.sessions, headers, path, is_upgrade, now_nanos, ctx)
    }
}

impl<L> Router<L> {
    pub fn new(config: RouterConfig<L>, sticky_config: StickySessionConfig) -> (r: Self)
        ensures
            r.config@ == config@,
            sticky_wf(r.sticky),
            sessions(r.sticky) == (if sticky_config.enabled {
                Some(Sessions { settings: sticky_config, model: StickyModel::initial() })
            } else {
                None
            }),
    {
        let sticky = if sticky_config.enabled {
            Some(StickySessionState::new(sticky_config))
        } else {
            None
        };
        Router { config: Arc::new(config), sticky }
    }

    /// Replaces the routes as a whole. The sessions stay.
    pub fn update(&mut self, config: RouterConfig<L>)
        ensures
            final(self)@ == old(self)@.updated(config@),
            final(self).sticky == old(self).sticky,
    {
        self.config = Arc::new(config);
    }
}

} // verus!
