//! What holds of routing and of sticky sessions whatever the request.

use vstd::prelude::*;

use super::{
    choose_affinity_key, cookie_appended, disconnected, fail_to_connect, fail_to_proxy,
    failure_status, filtered, in_time, opt_str, peered, request_filter, resolve_pool, resolve_route,
    response_filter, selected_for, sessions, sticky_wf, upstream_peer, upstream_request_filter,
    upstream_selected, uri_rewritten, AppPools, Ctx, Destination, FailToProxy, FailureHint,
    FilterError, FilterErrorKind, Peer, PeerPlan, PeerStep, PeerView, PoolConfig, Pools, Resolved,
    ResolvedPool, Router, RouterConfig, RouterCtx, Routes, Routing, Sessions,
};
use crate::headers::laws::{
    cookies_hold, header_is, header_lacks, key_fits, law_cookie_is_found,
    law_generated_keys_are_accepted, lemma_affinity_cookie, lemma_affinity_header,
    lemma_request_host, names_cookie, pair_of,
};
use crate::headers::request_host;
use crate::lb::TransportKind;
use crate::request::first_segment;
use crate::request::laws::{
    host_part, law_first_segment, law_only_the_segment_is_stripped, leads_into, leads_path,
    only_slashes, rooted,
};
use crate::sticky::laws::{
    law_bound_key_is_found, law_found_bindings_live_on, law_lookups_change_one_binding,
    law_removed_key_is_not_found, lemma_bound_beside, lemma_bound_until,
    lemma_lookup_of_what_counts,
};
use crate::sticky::{
    affinity, AffinityEntry, AffinityKeyView, StickySessionConfig, StickySessionState,
};
use crate::text;
use crate::text::laws::{law_small_letters, law_trims_to, no_outer_blanks, only_blanks, small_form};

verus! {

/// The host comes before the path, and the path before the default.
pub proof fn law_routing_precedence<L>(
    routes: Routes<L>,
    host: Option<Seq<char>>,
    segment: Option<Seq<char>>,
)
    ensures
        (host matches Some(h) && routes.subdomains.contains_key(h)) ==> routes.destination(
            host,
            segment,
        ) == Some(Destination { app: routes.subdomains[host->0], rewrite: None }),
        !(host matches Some(h) && routes.subdomains.contains_key(h)) && (segment matches Some(s)
            && routes.paths.contains_key(s)) ==> routes.destination(host, segment) == Some(
            Destination { app: routes.paths[segment->0], rewrite: segment },
        ),
        !(host matches Some(h) && routes.subdomains.contains_key(h)) && !(segment matches Some(s)
            && routes.paths.contains_key(s)) ==> routes.destination(host, segment) == (
        match routes.default_app {
            Some(app) => Some(Destination { app, rewrite: None }),
            None => None,
        }),
{
}

/// An upgrade request goes to the application's HTTP/1.1 pool, whatever other pools there are, and
/// is refused exactly where the application has none.
pub proof fn law_upgrades_stay_on_http1<L>(pools: Pools<L>)
    ensures
        pools.serving(true) is Some <==> pools.http1 is Some,
        pools.serving(true) matches Some(served) ==> pools.http1 == Some(served.pool)
            && !served.is_http2 && served.transport == TransportKind::Http1,
{
}

/// A plain request never goes to the WebSocket pool, and prefers HTTP/2.
pub proof fn law_plain_requests_prefer_http2<L>(pools: Pools<L>)
    ensures
        pools.serving(false) matches Some(served) ==> served.transport != TransportKind::Ws && (
        if pools.http2 is Some {
            served.is_http2 && pools.http2 == Some(served.pool)
        } else {
            !served.is_http2 && pools.http1 == Some(served.pool)
        }),
        pools.serving(false) is None <==> pools.http1 is None && pools.http2 is None,
{
}

/// A request is served exactly when it matches an application that has a pool for it. Otherwise it
/// is refused: with 404 when it matches none, and with 503 when it does. An upgrade request is served
/// by the application's HTTP/1.1 pool alone.
pub proof fn law_served_or_refused<L>(
    routes: Routes<L>,
    sessions: Option<Sessions>,
    headers: http::HeaderMap<http::HeaderValue>,
    path: Seq<char>,
    is_upgrade: bool,
    now_nanos: u128,
)
    ensures
        ({
            let to = routes.destination(request_host(headers), first_segment(path));
            let step = filtered(
                routes,
                sessions,
                headers,
                path,
                is_upgrade,
                now_nanos,
                Ctx::fresh(),
            );
            &&& (step.result is Ok <==> to is Some && routes.apps.contains_key(to->0.app)
                && routes.apps[to->0.app].serving(is_upgrade) is Some)
            &&& (step.result matches Err(refusal) && refusal.kind == FilterErrorKind::HttpStatus(
                404,
            ) <==> to is None)
            &&& (step.result matches Err(refusal) && refusal.kind == FilterErrorKind::HttpStatus(
                503,
            ) <==> to is Some && step.result is Err)
            &&& is_upgrade && to is Some && routes.apps.contains_key(to->0.app) ==> {
                let http1 = routes.apps[to->0.app].http1;
                &&& step.result is Ok <==> http1 is Some
                &&& http1 is Some ==> step.ctx.resolved_pool == Some(
                    Resolved {
                        pool: http1->0,
                        is_http2: false,
                        transport: TransportKind::Http1,
                    },
                )
            }
        }),
{
}

/// What a request is refused with is what it is answered with.
pub proof fn law_refusals_keep_their_status<L>(
    routes: Routes<L>,
    sessions: Option<Sessions>,
    headers: http::HeaderMap<http::HeaderValue>,
    path: Seq<char>,
    is_upgrade: bool,
    now_nanos: u128,
    now: u64,
    selected: Option<String>,
    ctx: Ctx<L>,
)
    ensures
        ({
            let step = filtered(routes, sessions, headers, path, is_upgrade, now_nanos, ctx);
            step.result matches Err(refusal) ==> refusal.kind == FilterErrorKind::HttpStatus(
                failure_status(step.ctx.failure_hint, refusal.kind),
            )
        }),
        ({
            let step = peered(sessions, now, ctx);
            step.result matches Err(refusal) ==> refusal.kind == FilterErrorKind::HttpStatus(
                failure_status(step.ctx.failure_hint, refusal.kind),
            )
        }),
        ({
            let step = selected_for(sessions, selected, now, ctx);
            step.result matches Err(refusal) ==> refusal.kind == FilterErrorKind::HttpStatus(
                failure_status(step.ctx.failure_hint, refusal.kind),
            )
        }),
        failure_status(Some(FailureHint::MissingApplication), FilterErrorKind::InternalError)
            == 404,
        failure_status(None, FilterErrorKind::InternalError) == 500,
{
}

/// Whom a secure upstream must prove to be does not depend on what the client sends: requests for
/// one application get one pool, and with it one name to verify, whatever their headers and paths.
pub proof fn law_client_does_not_choose_the_verified_name<L>(
    routes: Routes<L>,
    sessions: Option<Sessions>,
    one: http::HeaderMap<http::HeaderValue>,
    one_path: Seq<char>,
    other: http::HeaderMap<http::HeaderValue>,
    other_path: Seq<char>,
    is_upgrade: bool,
    now_nanos: u128,
    address: Seq<char>,
)
    requires
        ({
            let a = filtered(
                routes,
                sessions,
                one,
                one_path,
                is_upgrade,
                now_nanos,
                Ctx::fresh(),
            );
            let b = filtered(
                routes,
                sessions,
                other,
                other_path,
                is_upgrade,
                now_nanos,
                Ctx::fresh(),
            );
            a.result is Ok && b.result is Ok && a.ctx.app_name == b.ctx.app_name
        }),
    ensures
        ({
            let a = filtered(
                routes,
                sessions,
                one,
                one_path,
                is_upgrade,
                now_nanos,
                Ctx::fresh(),
            );
            let b = filtered(
                routes,
                sessions,
                other,
                other_path,
                is_upgrade,
                now_nanos,
                Ctx::fresh(),
            );
            &&& a.ctx.resolved_pool == b.ctx.resolved_pool
            &&& a.ctx.resolved_pool->0.peer(address) == b.ctx.resolved_pool->0.peer(address)
            &&& a.ctx.resolved_pool->0.peer(address).sni
                == a.ctx.resolved_pool->0.pool.verify_hostname
        }),
{
}

/// Sticky sessions stick: once a backend was selected for a request, a later request of the same
/// application with the same affinity key is sent to it, as long as the time to live has not
/// passed and the backend is still in the pool.
///
/// Left out is a binding that gives way at once where the sessions are at the limit;
/// [`law_newest_gives_way_only_to_its_older_note`](crate::sticky::laws::law_newest_gives_way_only_to_its_older_note)
/// says which one that is.
pub proof fn law_sessions_stick<L>(
    sessions: Sessions,
    address: String,
    selected_at: u64,
    ctx: Ctx<L>,
    now: u64,
    later: Ctx<L>,
)
    requires
        sessions.valid(),
        in_time(Some(sessions), selected_at),
        selected_at <= now < selected_at + sessions.settings.ttl(),
        ctx.resolved_pool is Some,
        ctx.app_name is Some,
        ctx.affinity_key is Some,
        later.resolved_pool is Some,
        later.resolved_pool->0.transport == ctx.resolved_pool->0.transport,
        later.app_name == ctx.app_name,
        later.affinity_key == ctx.affinity_key,
        later.resolved_pool->0.pool.backends.contains(address@),
        ({
            let entry = AffinityEntry {
                backend: address,
                expires_at: (selected_at + sessions.settings.ttl()) as u64,
            };
            !sessions.model.gives_way(
                ctx.binding_key(ctx.resolved_pool->0.transport)->0,
                entry,
                selected_at,
                sessions.settings.max_entries,
            )
        }),
    ensures
        peered(
            selected_for(Some(sessions), Some(address), selected_at, ctx).sessions,
            now,
            later,
        ).result == Ok::<PeerPlan<L>, super::Refusal>(
            PeerPlan::Bound(later.resolved_pool->0.peer(address@)),
        ),
{
    let key = ctx.binding_key(ctx.resolved_pool->0.transport)->0;
    let entry = AffinityEntry {
        backend: address,
        expires_at: (selected_at + sessions.settings.ttl()) as u64,
    };
    law_bound_key_is_found(
        sessions.model,
        key,
        entry,
        selected_at,
        now,
        sessions.settings.max_entries,
        later.resolved_pool->0.pool.backends,
    );
}

/// Sessions slide: a request that was sent to the backend it is bound to keeps that backend for
/// another time to live, as long as the backend is still in the pool.
pub proof fn law_sessions_slide<L>(
    sessions: Sessions,
    found_at: u64,
    ctx: Ctx<L>,
    now: u64,
    later: Ctx<L>,
)
    requires
        sessions.valid(),
        in_time(Some(sessions), found_at),
        now < found_at + sessions.settings.ttl(),
        ctx.resolved_pool is Some,
        ctx.app_name is Some,
        ctx.affinity_key is Some,
        later.resolved_pool is Some,
        later.resolved_pool->0.transport == ctx.resolved_pool->0.transport,
        later.app_name == ctx.app_name,
        later.affinity_key == ctx.affinity_key,
        ({
            let key = ctx.binding_key(ctx.resolved_pool->0.transport)->0;
            let found = sessions.found(key, ctx.resolved_pool->0.pool.backends, found_at);
            found is Some && later.resolved_pool->0.pool.backends.contains(found->0.backend@)
        }),
    ensures
        ({
            let key = ctx.binding_key(ctx.resolved_pool->0.transport)->0;
            let found = sessions.found(key, ctx.resolved_pool->0.pool.backends, found_at);
            peered(peered(Some(sessions), found_at, ctx).sessions, now, later).result == Ok::<
                PeerPlan<L>,
                super::Refusal,
            >(PeerPlan::Bound(later.resolved_pool->0.peer(found->0.backend@)))
        }),
{
    law_found_bindings_live_on(
        sessions.model,
        ctx.binding_key(ctx.resolved_pool->0.transport)->0,
        ctx.resolved_pool->0.pool.backends,
        found_at,
        sessions.settings,
        later.resolved_pool->0.pool.backends,
        now,
    );
}

/// Whether a peer is connected to as a pool has it: TLS is on exactly when the pool is secure, the
/// verified name is the pool's, and the HTTP version is 2 or 1.
pub open spec fn peer_fits<L>(pool: Resolved<L>, peer: PeerView) -> bool {
    &&& peer.tls == pool.pool.secure
    &&& peer.sni == pool.pool.verify_hostname
    &&& peer.http_version == (if pool.is_http2 {
        (2u8, 2u8)
    } else {
        (1u8, 1u8)
    })
}

/// Whatever the request, a peer is connected to as its pool has it. The address of a bound peer is
/// one of the pool's backends. Otherwise the pool's load balancer is asked, and the address is the
/// one that it selects: one of the backends, where the load balancer selects one of those.
pub proof fn law_peers_are_of_their_pool<L>(
    sessions: Option<Sessions>,
    now: u64,
    selected: Option<String>,
    ctx: Ctx<L>,
)
    requires
        ctx.resolved_pool is Some,
    ensures
        ({
            let pool = ctx.resolved_pool->0;
            &&& peered(sessions, now, ctx).result matches Ok(PeerPlan::Bound(peer)) ==> peer_fits(
                pool,
                peer,
            ) && pool.pool.backends.contains(peer.address)
            &&& peered(sessions, now, ctx).result matches Ok(PeerPlan::Select(lb, _)) ==> lb
                == pool.pool.lb
            &&& selected_for(sessions, selected, now, ctx).result matches Ok(peer) ==> peer_fits(
                pool,
                peer,
            ) && selected is Some && peer.address == selected->0@ && (pool.pool.backends.contains(
                selected->0@,
            ) ==> pool.pool.backends.contains(peer.address))
        }),
{
}

/// Whether a request is sent to a peer: the one that it is bound to, or else the selected one.
pub open spec fn sent_to<L>(
    sessions: Option<Sessions>,
    now: u64,
    selected: Option<String>,
    ctx: Ctx<L>,
    peer: PeerView,
) -> bool {
    match peered(sessions, now, ctx).result {
        Ok(PeerPlan::Bound(bound)) => peer == bound,
        Ok(PeerPlan::Select(_, _)) => selected_for(sessions, selected, now, ctx).result == Ok::<
            PeerView,
            super::Refusal,
        >(peer),
        Err(_) => false,
    }
}

/// How a peer is connected to does not depend on the request or on its session: two requests that
/// were given the same pool get the same TLS, the same verified name and the same HTTP version,
/// whether bound or selected.
pub proof fn law_requests_do_not_choose_how_to_connect<L>(
    sessions: Option<Sessions>,
    now: u64,
    selected: Option<String>,
    ctx: Ctx<L>,
    peer: PeerView,
    other_sessions: Option<Sessions>,
    other_now: u64,
    other_selected: Option<String>,
    other_ctx: Ctx<L>,
    other_peer: PeerView,
)
    requires
        ctx.resolved_pool is Some,
        other_ctx.resolved_pool == ctx.resolved_pool,
        sent_to(sessions, now, selected, ctx, peer),
        sent_to(other_sessions, other_now, other_selected, other_ctx, other_peer),
    ensures
        peer_fits(ctx.resolved_pool->0, peer),
        peer_fits(ctx.resolved_pool->0, other_peer),
        peer.tls == other_peer.tls,
        peer.sni == other_peer.sni,
        peer.http_version == other_peer.http_version,
{
}

/// A request after an update is routed by the new routes alone: what the routes were before makes
/// no difference to it. The sessions are those there were.
pub proof fn law_updates_replace_the_routes<L>(
    one: Routing<L>,
    other: Routing<L>,
    routes: Routes<L>,
    headers: http::HeaderMap<http::HeaderValue>,
    path: Seq<char>,
    is_upgrade: bool,
    now_nanos: u128,
    ctx: Ctx<L>,
)
    requires
        one.sessions == other.sessions,
    ensures
        one.updated(routes).sessions == one.sessions,
        one.updated(routes).filtered(headers, path, is_upgrade, now_nanos, ctx) == filtered(
            routes,
            one.sessions,
            headers,
            path,
            is_upgrade,
            now_nanos,
            ctx,
        ),
        one.updated(routes).filtered(headers, path, is_upgrade, now_nanos, ctx) == other.updated(
            routes,
        ).filtered(headers, path, is_upgrade, now_nanos, ctx),
{
}

/// A request whose upstream could not be reached is not sent there again by its binding: the load
/// balancer selects anew. It is tried again once.
pub proof fn law_failed_connections_unbind<L>(sessions: Sessions, ctx: Ctx<L>, now: u64)
    requires
        sessions.model.valid(),
        ctx.resolved_pool is Some,
        ctx.selected_transport == Some(ctx.resolved_pool->0.transport),
        ctx.app_name is Some,
        ctx.affinity_key is Some,
    ensures
        ({
            let step = disconnected(Some(sessions), ctx);
            &&& peered(step.sessions, now, step.ctx).result == Ok::<PeerPlan<L>, super::Refusal>(
                PeerPlan::Select(ctx.resolved_pool->0.pool.lb, ctx.affinity_key->0),
            )
            &&& step.result == Ok::<bool, super::Refusal>(!ctx.sticky_retry_attempted)
            &&& disconnected(step.sessions, step.ctx).result == Ok::<bool, super::Refusal>(false)
        }),
{
    let key = affinity(ctx.app_name->0, ctx.resolved_pool->0.transport, ctx.affinity_key->0);
    law_removed_key_is_not_found(
        sessions.model,
        key,
        now,
        sessions.settings.max_entries,
        ctx.resolved_pool->0.pool.backends,
    );
}

/// Whether a request has this host: the one that its `Host` header names, or else its `:authority`,
/// without the port and in small letters.
pub open spec fn has_host(
    headers: http::HeaderMap<http::HeaderValue>,
    host: Option<Seq<char>>,
) -> bool {
    match host {
        Some(host) => exists|t: Seq<char>, name: Seq<char>| #[trigger]
            host_part(t, name) && (header_is(headers, "host"@, t) || (header_lacks(
                headers,
                "host"@,
            ) && header_is(headers, ":authority"@, t))) && small_form(name, host),
        None => header_lacks(headers, "host"@) && header_lacks(headers, ":authority"@),
    }
}

/// Whether a path has this first segment.
pub open spec fn has_segment(path: Seq<char>, segment: Option<Seq<char>>) -> bool {
    match segment {
        Some(segment) => leads_path(path, segment),
        None => only_slashes(path),
    }
}

proof fn lemma_host_and_segment(
    headers: http::HeaderMap<http::HeaderValue>,
    host: Option<Seq<char>>,
    path: Seq<char>,
    segment: Option<Seq<char>>,
)
    ensures
        has_host(headers, host) ==> request_host(headers) == host,
        has_segment(path, segment) ==> first_segment(path) == segment,
{
    law_first_segment(path);
    if has_host(headers, host) {
        match host {
            Some(host) => {
                let (t, name) = choose|t: Seq<char>, name: Seq<char>| #[trigger]
                    host_part(t, name) && (header_is(headers, "host"@, t) || (header_lacks(
                        headers,
                        "host"@,
                    ) && header_is(headers, ":authority"@, t))) && small_form(name, host);
                lemma_request_host(headers, t, name);
                law_small_letters(name);
            },
            None => {
                let t = Seq::<char>::empty();
                assert(host_part(t, t));
                lemma_request_host(headers, t, t);
            },
        }
    }
}

/// The application that a request is for, and the path segment that is stripped: by its host, or
/// else by its first path segment, or else the default.
pub open spec fn chosen<L>(
    config: RouterConfig<L>,
    host: Option<Seq<char>>,
    segment: Option<Seq<char>>,
) -> Option<(Seq<char>, Option<Seq<char>>)> {
    if host is Some && config.subdomain_routes@.contains_key(host->0) {
        Some((config.subdomain_routes@[host->0]@, None))
    } else if segment is Some && config.path_routes@.contains_key(segment->0) {
        Some((config.path_routes@[segment->0]@, segment))
    } else if config.default_app is Some {
        Some((config.default_app->0@, None))
    } else {
        None
    }
}

proof fn lemma_chosen<L>(
    config: RouterConfig<L>,
    host: Option<Seq<char>>,
    segment: Option<Seq<char>>,
)
    ensures
        config@.destination(host, segment) == (match chosen(config, host, segment) {
            Some((app, rewrite)) => Some(Destination { app, rewrite }),
            None => None,
        }),
{
    if host is Some {
        assert(config@.subdomains.contains_key(host->0) == config.subdomain_routes@.contains_key(
            host->0,
        ));
    }
    if segment is Some {
        assert(config@.paths.contains_key(segment->0) == config.path_routes@.contains_key(
            segment->0,
        ));
    }
}

/// [`resolve_route`] finds the application that a request is for.
pub proof fn law_resolve_route<L>(
    config: &RouterConfig<L>,
    host: Option<&str>,
    segment: Option<&str>,
    r: Option<(String, Option<String>)>,
)
    requires
        call_ensures(resolve_route::<L>, (config, host, segment), r),
    ensures
        match chosen(*config, opt_str(host), opt_str(segment)) {
            Some((app, rewrite)) => r is Some && (r->0).0@ == app && (match rewrite {
                Some(stripped) => (r->0).1 is Some && (r->0).1->0@ == stripped,
                None => (r->0).1 is None,
            }),
            None => r is None,
        },
{
    lemma_chosen(*config, opt_str(host), opt_str(segment));
}

/// Whether a pool is used as it is configured, over a transport.
pub open spec fn uses_pool<L>(
    pool: PoolConfig<L>,
    transport: TransportKind,
    used: ResolvedPool<L>,
) -> bool {
    &&& *used.lb == *pool.lb
    &&& used.secure == pool.secure
    &&& used.verify_hostname@ == pool.verify_hostname@
    &&& used.backends@ == pool.backends@
    &&& used.transport == transport
    &&& used.is_http2 == (transport == TransportKind::Http2)
}

/// Whether a request is served as it must be: an upgrade by HTTP/1.1 alone, any other by HTTP/2 or
/// else by HTTP/1.1.
pub open spec fn serves<L>(
    pools: AppPools<L>,
    is_upgrade: bool,
    used: Option<ResolvedPool<L>>,
) -> bool {
    if !is_upgrade && pools.http2 is Some {
        used is Some && uses_pool(pools.http2->0, TransportKind::Http2, used->0)
    } else if pools.http1 is Some {
        used is Some && uses_pool(pools.http1->0, TransportKind::Http1, used->0)
    } else {
        used is None
    }
}

/// [`resolve_pool`] picks the pool that must serve a request, as it is configured.
pub proof fn law_resolve_pool<L>(
    pools: &AppPools<L>,
    is_upgrade: bool,
    r: Option<ResolvedPool<L>>,
)
    requires
        call_ensures(resolve_pool::<L>, (pools, is_upgrade), r),
    ensures
        serves(*pools, is_upgrade, r),
{
}

/// Whether an error answers a request with a status.
pub open spec fn answers_with(e: FilterError, status: u16, message: Seq<char>) -> bool {
    e.kind == FilterErrorKind::HttpStatus(status) && e.message@ == message
}

/// A request finds the application that it is for and the pool that must serve it, or is refused:
/// with 404 where no application matches, and with 503 where the application has no pool for it.
pub proof fn law_requests_are_routed<L>(
    config: &RouterConfig<L>,
    sticky: &mut Option<StickySessionState>,
    headers: &http::HeaderMap<http::HeaderValue>,
    path: &str,
    is_upgrade: bool,
    now_nanos: u128,
    ctx: &mut RouterCtx<L>,
    r: Result<bool, FilterError>,
    host: Option<Seq<char>>,
    segment: Option<Seq<char>>,
)
    requires
        call_ensures(
            request_filter::<L>,
            (config, sticky, headers, path, is_upgrade, now_nanos, ctx),
            r,
        ),
        old(ctx).resolved_pool is None,
        has_host(*headers, host),
        has_segment(path@, segment),
    ensures
        match chosen(*config, host, segment) {
            None => {
                &&& r is Err && answers_with(r->Err_0, 404, "no application matched"@)
                &&& final(ctx).failure_hint == Some(FailureHint::MissingApplication)
            },
            Some((app, rewrite)) => {
                &&& final(ctx).app_name is Some && final(ctx).app_name->0@ == app
                &&& final(ctx).is_upgrade == is_upgrade
                &&& match rewrite {
                    Some(stripped) => final(ctx).path_rewrite_segment is Some
                        && final(ctx).path_rewrite_segment->0@ == stripped,
                    None => final(ctx).path_rewrite_segment is None,
                }
                &&& config.apps@.contains_key(app) ==> serves(
                    config.apps@[app],
                    is_upgrade,
                    final(ctx).resolved_pool,
                )
                &&& !config.apps@.contains_key(app) ==> final(ctx).resolved_pool is None
                &&& final(ctx).resolved_pool matches Some(used) ==> r == Ok::<bool, FilterError>(
                    false,
                ) && final(ctx).selected_transport == Some(used.transport)
                &&& final(ctx).resolved_pool is None ==> r is Err && r->Err_0.kind
                    == FilterErrorKind::HttpStatus(503) && (final(ctx).failure_hint == Some(
                    FailureHint::MissingWsPool,
                ) || final(ctx).failure_hint == Some(FailureHint::MissingUpstreamPool))
            },
        },
{
    lemma_host_and_segment(*headers, host, path@, segment);
    lemma_chosen(*config, host, segment);
    if let Some((app, rewrite)) = chosen(*config, host, segment) {
        assert(config@.apps.contains_key(app) == config.apps@.contains_key(app));
        if config.apps@.contains_key(app) {
            assert(config@.apps[app] == config.apps@[app]@);
        }
    }
}

/// With sticky sessions on, every request that is let through has an affinity key, and its response
/// carries the cookie that hands out exactly this key. Without them it has none, and carries none.
pub proof fn law_responses_carry_the_key<L>(
    config: &RouterConfig<L>,
    sticky: &mut Option<StickySessionState>,
    headers: &http::HeaderMap<http::HeaderValue>,
    path: &str,
    is_upgrade: bool,
    now_nanos: u128,
    ctx: &mut RouterCtx<L>,
    r: Result<bool, FilterError>,
    answered: &Option<StickySessionState>,
    answered_ctx: &RouterCtx<L>,
    cookie: Option<String>,
)
    requires
        call_ensures(
            request_filter::<L>,
            (config, sticky, headers, path, is_upgrade, now_nanos, ctx),
            r,
        ),
        r is Ok,
        old(ctx).affinity_key is None,
        !old(ctx).should_set_cookie,
        sessions(*answered) == sessions(*final(sticky)),
        *answered_ctx == *final(ctx),
        call_ensures(response_filter::<L>, (answered, answered_ctx), cookie),
    ensures
        (*old(sticky)) is Some ==> {
            let config = (*old(sticky))->0.settings();
            let seconds = if config.ttl_ms < 2000 {
                1
            } else {
                config.ttl_ms as nat / 1000
            };
            &&& final(ctx).affinity_key is Some
            &&& cookie is Some
            &&& cookie->0@ == config.cookie_name@ + "="@ + final(ctx).affinity_key->0@
                + "; Max-Age="@ + text::numeral(seconds, 10) + "; Path=/; HttpOnly; SameSite=Lax"@
                + (if config.cookie_secure {
                "; Secure"@
            } else {
                Seq::empty()
            })
        },
        (*old(sticky)) is None ==> final(ctx).affinity_key is None && cookie is None,
{
    let nothing = Seq::<char>::empty();
    if let Some(c) = cookie {
        assert(c@ + nothing =~= c@);
    }
}

/// A response that carries a cookie hands out the key of its request, and one without a key, or
/// that is not to carry it, carries none.
pub proof fn law_response_filter<L>(
    sticky: &Option<StickySessionState>,
    ctx: &RouterCtx<L>,
    r: Option<String>,
)
    requires
        call_ensures(response_filter::<L>, (sticky, ctx), r),
    ensures
        r is Some <==> sticky is Some && ctx.affinity_key is Some && ctx.should_set_cookie,
        r is Some ==> {
            let pair = sticky->0.settings().cookie_name@ + "="@ + ctx.affinity_key->0@
                + "; Max-Age="@;
            r->0@.len() > pair.len() && r->0@.take(pair.len() as int) == pair
        },
{
    if r is Some {
        let config = sticky->0.settings();
        let pair = config.cookie_name@ + "="@ + ctx.affinity_key->0@ + "; Max-Age="@;
        reveal_strlit("; Path=/; HttpOnly; SameSite=Lax");
        assert(r->0@.take(pair.len() as int) =~= pair);
    }
}

/// The key that a response hands out is the key of the next request that brings the cookie back, and
/// its affinity header or the clock make no difference then.
pub proof fn law_cookie_comes_before_the_header(
    sticky: &mut StickySessionState,
    headers: &http::HeaderMap<http::HeaderValue>,
    now_nanos: u128,
    r: String,
    cookies: Seq<char>,
    key: Seq<char>,
    front: Option<Seq<char>>,
    pair: Seq<char>,
    back: Option<Seq<char>>,
    before: Seq<char>,
    between: Seq<char>,
    behind: Seq<char>,
)
    requires
        call_ensures(choose_affinity_key, (sticky, headers, now_nanos), r),
        header_is(*headers, "cookie"@, cookies),
        cookies_hold(cookies, old(sticky).settings().cookie_name@, front, pair, back),
        pair_of(pair, old(sticky).settings().cookie_name@, key, before, between, behind),
        old(sticky).settings().cookie_name@.len() > 0,
        no_outer_blanks(old(sticky).settings().cookie_name@),
        !old(sticky).settings().cookie_name@.contains('='),
    ensures
        r@ == key,
        final(sticky).model() == old(sticky).model(),
        final(sticky).settings() == old(sticky).settings(),
{
    lemma_affinity_cookie(*headers, old(sticky).settings().cookie_name@, cookies);
    law_cookie_is_found(
        cookies,
        old(sticky).settings().cookie_name@,
        key,
        front,
        pair,
        back,
        before,
        between,
        behind,
    );
}

/// Without the cookie the key is that of the affinity header, and without both it is made up.
pub proof fn law_header_comes_before_a_new_key(
    sticky: &mut StickySessionState,
    headers: &http::HeaderMap<http::HeaderValue>,
    now_nanos: u128,
    r: String,
    cookies: Seq<char>,
    small: Seq<char>,
    before: Seq<char>,
    key: Seq<char>,
    behind: Seq<char>,
)
    requires
        call_ensures(choose_affinity_key, (sticky, headers, now_nanos), r),
        header_lacks(*headers, "cookie"@) || (header_is(*headers, "cookie"@, cookies)
            && !names_cookie(cookies, old(sticky).settings().cookie_name@)),
        small_form(old(sticky).settings().header_name@, small),
        only_blanks(before),
        only_blanks(behind),
        no_outer_blanks(key),
    ensures
        header_is(*headers, small, before + key + behind) && key_fits(key) ==> r@ == key
            && final(sticky).model() == old(sticky).model(),
        (header_is(*headers, small, before + key + behind) && !key_fits(key)) || header_lacks(
            *headers,
            small,
        ) ==> {
            &&& r@ == text::numeral(now_nanos as nat, 16) + text::numeral(
                old(sticky).model().next_key as nat,
                16,
            )
            &&& key_fits(r@)
            &&& final(sticky).model().next_key != old(sticky).model().next_key
            &&& final(sticky).model().entries == old(sticky).model().entries
        },
        final(sticky).settings() == old(sticky).settings(),
{
    lemma_affinity_cookie(*headers, old(sticky).settings().cookie_name@, cookies);
    lemma_affinity_header(
        *headers,
        old(sticky).settings().header_name@,
        small,
        before,
        key,
        behind,
    );
    law_generated_keys_are_accepted(now_nanos, old(sticky).model().next_key);
    law_trims_to(r@, r@);
}

/// Whether a peer is at an address, and connected to as a pool has it.
pub open spec fn peer_at<L>(used: ResolvedPool<L>, address: Seq<char>, peer: Peer) -> bool {
    &&& peer.address@ == address
    &&& peer.tls == used.secure
    &&& peer.sni@ == used.verify_hostname@
    &&& peer.http_version == (if used.is_http2 {
        (2u8, 2u8)
    } else {
        (1u8, 1u8)
    })
}

/// What a request's binding is found by, if it has an affinity key.
pub open spec fn binding_of<L>(ctx: RouterCtx<L>, transport: TransportKind) -> Option<
    AffinityKeyView,
> {
    if ctx.app_name is Some && ctx.affinity_key is Some {
        Some(
            AffinityKeyView {
                app_name: ctx.app_name->0@,
                transport,
                affinity_key: ctx.affinity_key->0@,
            },
        )
    } else {
        None
    }
}

/// A request that is bound to a backend of its pool goes there; for any other the load balancer of
/// its pool selects one, by its affinity key if it has one.
pub proof fn law_peers_are_found<L>(
    sticky: &mut Option<StickySessionState>,
    now: u64,
    ctx: &mut RouterCtx<L>,
    r: Result<PeerStep<L>, FilterError>,
)
    requires
        sticky_wf(*old(sticky)),
        call_ensures(upstream_peer::<L>, (sticky, now, ctx), r),
    ensures
        old(ctx).resolved_pool is None ==> r is Err && answers_with(
            r->Err_0,
            503,
            "no upstream pool resolved"@,
        ) && final(ctx).failure_hint == Some(FailureHint::MissingUpstreamPool),
        old(ctx).resolved_pool matches Some(used) ==> {
            let key = binding_of(*old(ctx), used.transport);
            &&& r is Ok
            &&& r->Ok_0 matches PeerStep::Select { lb, key: by } ==> {
                let keyed = (*old(sticky)) is Some && key is Some;
                &&& *lb == *used.lb
                &&& keyed ==> by@ == old(ctx).affinity_key->0@
                &&& !keyed ==> by@.len() == 0
            }
            &&& r->Ok_0 matches PeerStep::Bound(peer) ==> {
                &&& (*old(sticky)) is Some && key is Some
                &&& (*old(sticky))->0.model().entries.contains_key(key->0)
                &&& now < (*old(sticky))->0.model().entries[key->0].expires_at
                &&& used.backends@.contains(peer.address@)
                &&& peer_at(used, (*old(sticky))->0.model().entries[key->0].backend@, peer)
            }
            &&& (*old(sticky)) is Some && key is Some && (*old(sticky))->0.model().entries.contains_key(
                key->0,
            ) && now < (*old(sticky))->0.model().entries[key->0].expires_at
                && used.backends@.contains((*old(sticky))->0.model().entries[key->0].backend@)
                ==> r->Ok_0 is Bound
        },
{
    reveal_strlit("");
    if let Some(used) = old(ctx).resolved_pool {
        let key = binding_of(*old(ctx), used.transport);
        if (*old(sticky)) is Some && key is Some {
            (*old(sticky))->0.law_models_are_valid();
            lemma_lookup_of_what_counts(
                (*old(sticky))->0.model(),
                key->0,
                now,
                (*old(sticky))->0.settings().max_entries,
            );
        }
    }
}

/// The backend that the load balancer selected is the one that the request goes to, as its pool has
/// it, and its affinity key is bound to it until the time to live has passed. Without a healthy
/// backend the request is refused with 503 and nothing is bound.
pub proof fn law_selected_backends_are_taken<L>(
    sticky: &mut Option<StickySessionState>,
    selected: Option<String>,
    now: u64,
    ctx: &mut RouterCtx<L>,
    r: Result<Peer, FilterError>,
)
    requires
        sticky_wf(*old(sticky)),
        call_ensures(upstream_selected::<L>, (sticky, selected, now, ctx), r),
        (*old(sticky)) is Some ==> now + (*old(sticky))->0.settings().ttl_ms * 1000000 <= u64::MAX,
    ensures
        old(ctx).resolved_pool is None ==> r is Err && answers_with(
            r->Err_0,
            503,
            "no upstream pool resolved"@,
        ),
        old(ctx).resolved_pool is Some && selected is None ==> r is Err && answers_with(
            r->Err_0,
            503,
            "no healthy upstreams available"@,
        ) && final(ctx).failure_hint == Some(FailureHint::UnhealthyUpstream) && sessions(
            *final(sticky),
        ) == sessions(*old(sticky)),
        old(ctx).resolved_pool is Some && selected is Some ==> {
            let used = old(ctx).resolved_pool->0;
            let key = binding_of(*old(ctx), used.transport);
            &&& r is Ok && peer_at(used, selected->0@, r->Ok_0)
            &&& (*old(sticky)) is Some && key is Some ==> {
                let before = (*old(sticky))->0.model().entries;
                let after = (*final(sticky))->0.model().entries;
                &&& (*final(sticky)) is Some
                &&& before.len() < (*old(sticky))->0.settings().max_entries
                    && (*old(sticky))->0.settings().ttl_ms > 0 ==> after.contains_key(key->0)
                &&& after.contains_key(key->0) ==> after[key->0].backend@ == selected->0@
                    && after[key->0].expires_at == now + (*old(sticky))->0.settings().ttl_ms * 1000000
            }
            &&& (*old(sticky)) is None || key is None ==> sessions(*final(sticky)) == sessions(
                *old(sticky),
            )
        },
{
    if old(ctx).resolved_pool is Some && selected is Some {
        let used = old(ctx).resolved_pool->0;
        let key = binding_of(*old(ctx), used.transport);
        if (*old(sticky)) is Some && key is Some {
            (*old(sticky))->0.law_models_are_valid();
            lemma_bound_until(
                (*old(sticky))->0.model(),
                key->0,
                selected->0,
                now,
                (*old(sticky))->0.settings(),
            );
        }
    }
}

/// A request that failed is answered: with 404 where no application matched, with 503 where the
/// application could not serve it, and otherwise with the status of its error, or 500. Its
/// connection is not used again.
pub proof fn law_failures_are_answered<L>(
    ctx: &RouterCtx<L>,
    error: FilterErrorKind,
    r: FailToProxy,
)
    requires
        call_ensures(fail_to_proxy::<L>, (ctx, error), r),
    ensures
        ctx.failure_hint == Some(FailureHint::MissingApplication) ==> r.error_code == 404,
        ctx.failure_hint == Some(FailureHint::MissingWsPool) ==> r.error_code == 503,
        ctx.failure_hint == Some(FailureHint::MissingUpstreamPool) ==> r.error_code == 503,
        ctx.failure_hint == Some(FailureHint::UnhealthyUpstream) ==> r.error_code == 503,
        ctx.failure_hint is None ==> match error {
            FilterErrorKind::HttpStatus(status) => r.error_code == status,
            FilterErrorKind::InternalError => r.error_code == 500,
        },
        r.respond <==> r.error_code > 0,
        !r.can_reuse_downstream,
{
}

/// A request whose upstream could not be reached loses its binding and is tried again, once. What
/// has no binding to lose is not tried again.
pub proof fn law_unreached_upstreams_are_left<L>(
    sticky: &mut Option<StickySessionState>,
    ctx: &mut RouterCtx<L>,
    r: bool,
    other: AffinityKeyView,
)
    requires
        call_ensures(fail_to_connect::<L>, (sticky, ctx), r),
    ensures
        ({
            let key = if old(ctx).selected_transport is Some {
                binding_of(*old(ctx), old(ctx).selected_transport->0)
            } else {
                None
            };
            &&& (*old(sticky)) is Some && key is Some ==> {
                &&& r == !old(ctx).sticky_retry_attempted
                &&& final(ctx).sticky_retry_attempted
                &&& (*final(sticky)) is Some
                &&& !(*final(sticky))->0.model().entries.contains_key(key->0)
                &&& other != key->0 ==> (*final(sticky))->0.model().entries.contains_key(other)
                    == (*old(sticky))->0.model().entries.contains_key(other)
            }
            &&& (*old(sticky)) is None || key is None ==> !r && sessions(*final(sticky)) == sessions(
                *old(sticky),
            )
            &&& final(ctx).resolved_pool is Some == old(ctx).resolved_pool is Some
            &&& final(ctx)@.affinity_key == old(ctx)@.affinity_key
            &&& final(ctx)@.app_name == old(ctx)@.app_name
        }),
{
}

/// A request that was routed by a path segment goes upstream without that segment: the whole rest of
/// the path and the whole query are kept. A URI ends before a `#`, and where none can be built of
/// what is left the request fails. Any other request goes upstream as it came.
pub proof fn law_paths_are_rewritten_upstream<L>(
    ctx: &RouterCtx<L>,
    path_and_query: Option<&str>,
    r: Result<Option<String>, FilterError>,
    rest: Seq<char>,
)
    requires
        call_ensures(upstream_request_filter::<L>, (ctx, path_and_query), r),
    ensures
        ctx.path_rewrite_segment is Some && path_and_query is Some && leads_into(
            path_and_query->0@,
            ctx.path_rewrite_segment->0@,
            rest,
        ) ==> match r {
            Ok(uri) => {
                &&& uri is Some
                &&& !rest.contains('#') ==> uri->0@ == rooted(rest)
                &&& !uri->0@.contains('#')
                &&& uri->0@.len() <= rooted(rest).len()
                &&& uri->0@ == rooted(rest).take(uri->0@.len() as int)
                &&& uri->0@.len() < rooted(rest).len() ==> rooted(rest)[uri->0@.len() as int]
                    == '#'
            },
            Err(e) => e.kind == FilterErrorKind::InternalError && e.message@
                == "failed to rewrite upstream uri"@,
        },
        ctx.path_rewrite_segment is None || path_and_query is None ==> r == Ok::<
            Option<String>,
            FilterError,
        >(None),
        ctx.path_rewrite_segment is Some && path_and_query is Some && !(exists|x: Seq<char>|
            #[trigger]
            leads_into(path_and_query->0@, ctx.path_rewrite_segment->0@, x)) ==> r == Ok::<
            Option<String>,
            FilterError,
        >(None),
{
    if ctx.path_rewrite_segment is Some && path_and_query is Some {
        law_only_the_segment_is_stripped(path_and_query->0@, ctx.path_rewrite_segment->0@);
        if leads_into(path_and_query->0@, ctx.path_rewrite_segment->0@, rest) {
            let full = rooted(rest);
            text::lemma_first_found(full, '#', 0);
            let end = text::first_from(full, '#', 0);
            assert(!full.take(end).contains('#'));
            if !rest.contains('#') {
                assert(!full.contains('#')) by {
                    if full.contains('#') {
                        let k = choose|k: int| 0 <= k < full.len() && full[k] == '#';
                        if full == rest {
                            assert(rest.contains(full[k]));
                        } else {
                            assert(full[k] == rest[k - 1]);
                            assert(rest.contains(rest[k - 1]));
                        }
                    }
                }
                if end < full.len() {
                    assert(full.contains(full[end]));
                }
                assert(full.take(end) =~= full);
            }
        }
    }
}

/// A router has sticky sessions exactly where they are enabled, and they behave as they are told to.
pub proof fn law_new_routers<L>(
    config: RouterConfig<L>,
    sticky_config: StickySessionConfig,
    r: Router<L>,
)
    requires
        call_ensures(Router::<L>::new, (config, sticky_config), r),
    ensures
        r.sticky is Some <==> sticky_config.enabled,
        r.sticky matches Some(s) ==> s.wf() && s.settings() == sticky_config
            && s.model().entries.dom().is_empty(),
        r.config@ == config@,
{
}

/// An update replaces the routes as a whole and leaves the sessions as they are.
pub proof fn law_routes_are_replaced<L>(router: &mut Router<L>, config: RouterConfig<L>)
    requires
        call_ensures(Router::<L>::update, (router, config), ()),
    ensures
        final(router).config@ == config@,
        final(router).sticky == old(router).sticky,
{
}

/// A response whose cookie could not be appended fails, and so does a request whose rewritten path
/// makes no URI; otherwise nothing stands in their way, and the URI is the one that was built.
pub proof fn law_what_could_not_be_done_fails(
    appended: bool,
    r: Result<(), FilterError>,
    uri: Option<String>,
    kept: Result<Option<String>, FilterError>,
)
    requires
        call_ensures(cookie_appended, (appended,), r),
        call_ensures(uri_rewritten, (uri,), kept),
    ensures
        r is Ok <==> appended,
        r matches Err(e) ==> e.kind == FilterErrorKind::InternalError && e.message@
            == "failed to append sticky session cookie"@,
        kept is Ok <==> uri is Some,
        kept matches Ok(kept) ==> kept is Some && kept->0@ == uri->0@,
        kept matches Err(e) ==> e.kind == FilterErrorKind::InternalError && e.message@
            == "failed to rewrite upstream uri"@,
{
}

/// What is known of a request at first is nothing, and routes lead nowhere at first.
pub proof fn law_nothing_is_known_at_first<L>(ctx: RouterCtx<L>, config: RouterConfig<L>)
    requires
        call_ensures(RouterCtx::<L>::default, (), ctx),
        call_ensures(RouterConfig::<L>::default, (), config),
    ensures
        ctx.app_name is None,
        ctx.path_rewrite_segment is None,
        !ctx.is_upgrade,
        ctx.resolved_pool is None,
        ctx.selected_transport is None,
        ctx.affinity_key is None,
        !ctx.should_set_cookie,
        !ctx.sticky_retry_attempted,
        ctx.failure_hint is None,
        forall|host: Option<Seq<char>>, segment: Option<Seq<char>>| #[trigger]
            chosen(config, host, segment) is None,
{
    assert(ctx@ == Ctx::<L>::fresh());
    assert forall|host: Option<Seq<char>>, segment: Option<Seq<char>>| #[trigger]
        chosen(config, host, segment) is None by {
        lemma_chosen(config, host, segment);
    }
}

/// Whether two contexts have the same pool.
pub open spec fn same_resolved<L>(
    one: Option<ResolvedPool<L>>,
    other: Option<ResolvedPool<L>>,
) -> bool {
    match (one, other) {
        (Some(one), Some(other)) => {
            &&& *one.lb == *other.lb
            &&& one.secure == other.secure
            &&& one.verify_hostname@ == other.verify_hostname@
            &&& one.is_http2 == other.is_http2
            &&& one.transport == other.transport
            &&& one.backends@ == other.backends@
        },
        (None, None) => true,
        _ => false,
    }
}

/// Whether two strings that may be missing are the same.
pub open spec fn same_string(one: Option<String>, other: Option<String>) -> bool {
    match (one, other) {
        (Some(one), Some(other)) => one@ == other@,
        (None, None) => true,
        _ => false,
    }
}

/// Whether two contexts are of the same request: all that [`request_filter`] found out about it.
pub open spec fn same_request<L>(one: RouterCtx<L>, other: RouterCtx<L>) -> bool {
    &&& same_string(one.app_name, other.app_name)
    &&& same_string(one.path_rewrite_segment, other.path_rewrite_segment)
    &&& one.is_upgrade == other.is_upgrade
    &&& same_resolved(one.resolved_pool, other.resolved_pool)
    &&& one.selected_transport == other.selected_transport
    &&& same_string(one.affinity_key, other.affinity_key)
    &&& one.should_set_cookie == other.should_set_cookie
}

/// A request that is refused is told why, and is given nothing: where no application matches all
/// that was known of it stays, an upgrade that its application cannot serve is told so, and any
/// other is told that it has no pool. A request that is let through is given no reason.
pub proof fn law_refusals_are_told<L>(
    config: &RouterConfig<L>,
    sticky: &mut Option<StickySessionState>,
    headers: &http::HeaderMap<http::HeaderValue>,
    path: &str,
    is_upgrade: bool,
    now_nanos: u128,
    ctx: &mut RouterCtx<L>,
    r: Result<bool, FilterError>,
    host: Option<Seq<char>>,
    segment: Option<Seq<char>>,
)
    requires
        call_ensures(
            request_filter::<L>,
            (config, sticky, headers, path, is_upgrade, now_nanos, ctx),
            r,
        ),
        has_host(*headers, host),
        has_segment(path@, segment),
    ensures
        final(ctx).sticky_retry_attempted == old(ctx).sticky_retry_attempted,
        chosen(*config, host, segment) is None ==> same_request(*final(ctx), *old(ctx))
            && sessions(*final(sticky)) == sessions(*old(sticky)),
        chosen(*config, host, segment) matches Some((app, _)) ==> {
            let known = config.apps@.contains_key(app);
            let served = known && (config.apps@[app].http1 is Some || (!is_upgrade
                && config.apps@[app].http2 is Some));
            &&& served ==> final(ctx).failure_hint == old(ctx).failure_hint
            &&& !served ==> same_resolved(final(ctx).resolved_pool, old(ctx).resolved_pool)
            &&& is_upgrade && known && !served ==> {
                &&& r is Err
                &&& answers_with(r->Err_0, 503, "no ws pool available for upgrade request"@)
                &&& final(ctx).failure_hint == Some(FailureHint::MissingWsPool)
                &&& final(ctx).selected_transport == old(ctx).selected_transport
            }
            &&& !(is_upgrade && known) && !served && old(ctx).resolved_pool is None ==> {
                &&& r is Err
                &&& answers_with(r->Err_0, 503, "no upstream pool resolved"@)
                &&& final(ctx).failure_hint == Some(FailureHint::MissingUpstreamPool)
                &&& final(ctx).selected_transport == old(ctx).selected_transport
            }
            &&& !(is_upgrade && known) && !served && old(ctx).resolved_pool is Some ==> {
                &&& r == Ok::<bool, FilterError>(false)
                &&& final(ctx).failure_hint == old(ctx).failure_hint
                &&& final(ctx).selected_transport == Some(old(ctx).resolved_pool->0.transport)
            }
            &&& final(ctx).resolved_pool is None || (*old(sticky)) is None ==> {
                &&& same_string(final(ctx).affinity_key, old(ctx).affinity_key)
                &&& final(ctx).should_set_cookie == old(ctx).should_set_cookie
                &&& sessions(*final(sticky)) == sessions(*old(sticky))
            }
        },
{
    lemma_host_and_segment(*headers, host, path@, segment);
    lemma_chosen(*config, host, segment);
    if let Some((app, rewrite)) = chosen(*config, host, segment) {
        assert(config@.apps.contains_key(app) == config.apps@.contains_key(app));
        if config.apps@.contains_key(app) {
            assert(config@.apps[app] == config.apps@[app]@);
        }
    }
}

/// The steps behind [`request_filter`] leave what it found out. A reason is noted only with a
/// refusal, and a second try only where an upstream could not be reached.
pub proof fn law_later_steps_keep_the_request<L>(
    finding: &mut Option<StickySessionState>,
    finding_ctx: &mut RouterCtx<L>,
    found: Result<PeerStep<L>, FilterError>,
    taking: &mut Option<StickySessionState>,
    selected: Option<String>,
    taking_ctx: &mut RouterCtx<L>,
    taken: Result<Peer, FilterError>,
    leaving: &mut Option<StickySessionState>,
    leaving_ctx: &mut RouterCtx<L>,
    again: bool,
    now: u64,
)
    requires
        call_ensures(upstream_peer::<L>, (finding, now, finding_ctx), found),
        call_ensures(upstream_selected::<L>, (taking, selected, now, taking_ctx), taken),
        call_ensures(fail_to_connect::<L>, (leaving, leaving_ctx), again),
    ensures
        same_request(*final(finding_ctx), *old(finding_ctx)),
        same_request(*final(taking_ctx), *old(taking_ctx)),
        same_request(*final(leaving_ctx), *old(leaving_ctx)),
        final(finding_ctx).sticky_retry_attempted == old(finding_ctx).sticky_retry_attempted,
        final(taking_ctx).sticky_retry_attempted == old(taking_ctx).sticky_retry_attempted,
        final(leaving_ctx).failure_hint == old(leaving_ctx).failure_hint,
        found is Ok ==> final(finding_ctx).failure_hint == old(finding_ctx).failure_hint,
        taken is Ok ==> final(taking_ctx).failure_hint == old(taking_ctx).failure_hint,
        old(taking_ctx).resolved_pool is None ==> final(taking_ctx).failure_hint == Some(
            FailureHint::MissingUpstreamPool,
        ) && sessions(*final(taking)) == sessions(*old(taking)),
        old(finding_ctx).resolved_pool is None ==> sessions(*final(finding)) == sessions(
            *old(finding),
        ),
{
}

/// A request that goes to the backend that it is bound to stays bound to it, for a full time to
/// live from then on. One that is not bound, or no longer, has no binding left. The bindings of
/// others that count stay as they are.
pub proof fn law_bound_requests_stay_bound<L>(
    sticky: &mut Option<StickySessionState>,
    now: u64,
    ctx: &mut RouterCtx<L>,
    r: Result<PeerStep<L>, FilterError>,
    other: AffinityKeyView,
)
    requires
        sticky_wf(*old(sticky)),
        call_ensures(upstream_peer::<L>, (sticky, now, ctx), r),
        (*old(sticky)) is Some,
        now + (*old(sticky))->0.settings().ttl_ms * 1000000 <= u64::MAX,
        old(ctx).resolved_pool is Some,
    ensures
        ({
            let key = binding_of(*old(ctx), old(ctx).resolved_pool->0.transport);
            let before = (*old(sticky))->0.model().entries;
            let after = (*final(sticky))->0.model().entries;
            &&& (*final(sticky)) is Some
            &&& (*final(sticky))->0.settings() == (*old(sticky))->0.settings()
            &&& key is None ==> sessions(*final(sticky)) == sessions(*old(sticky))
            &&& key is Some ==> {
                &&& r->Ok_0 matches PeerStep::Bound(peer) ==> {
                    &&& after.contains_key(key->0)
                    &&& after[key->0].backend@ == peer.address@
                    &&& after[key->0].expires_at == now + (*old(sticky))->0.settings().ttl_ms
                        * 1000000
                }
                &&& r->Ok_0 is Select ==> !after.contains_key(key->0)
                &&& other != key->0 ==> {
                    &&& before.contains_key(other) && now < before[other].expires_at
                        ==> after.contains_key(other)
                    &&& after.contains_key(other) ==> before.contains_key(other)
                        && after[other] == before[other]
                }
            }
        }),
{
    let key = binding_of(*old(ctx), old(ctx).resolved_pool->0.transport);
    if key is Some {
        let m = (*old(sticky))->0.model();
        let config = (*old(sticky))->0.settings();
        let allowed = old(ctx).resolved_pool->0.backends@;
        (*old(sticky))->0.law_models_are_valid();
        lemma_lookup_of_what_counts(m, key->0, now, config.max_entries);
        if other != key->0 {
            law_lookups_change_one_binding(m, key->0, allowed, now, config, other);
        }
    }
}

/// Taking a backend binds no key but the request's: the bindings of others stay as they are, and
/// while there is room those that count stay.
pub proof fn law_taking_leaves_others_bound<L>(
    sticky: &mut Option<StickySessionState>,
    selected: Option<String>,
    now: u64,
    ctx: &mut RouterCtx<L>,
    r: Result<Peer, FilterError>,
    other: AffinityKeyView,
)
    requires
        sticky_wf(*old(sticky)),
        call_ensures(upstream_selected::<L>, (sticky, selected, now, ctx), r),
        (*old(sticky)) is Some,
        old(ctx).resolved_pool is Some,
        binding_of(*old(ctx), old(ctx).resolved_pool->0.transport) != Some(other),
    ensures
        ({
            let before = (*old(sticky))->0.model().entries;
            let after = (*final(sticky))->0.model().entries;
            &&& (*final(sticky)) is Some
            &&& (*final(sticky))->0.settings() == (*old(sticky))->0.settings()
            &&& after.contains_key(other) ==> before.contains_key(other) && after[other]
                == before[other]
            &&& before.len() < (*old(sticky))->0.settings().max_entries && before.contains_key(
                other,
            ) && now < before[other].expires_at ==> after.contains_key(other)
        }),
{
    let key = binding_of(*old(ctx), old(ctx).resolved_pool->0.transport);
    if key is Some && selected is Some {
        let m = (*old(sticky))->0.model();
        let config = (*old(sticky))->0.settings();
        (*old(sticky))->0.law_models_are_valid();
        let entry = AffinityEntry {
            backend: selected->0,
            expires_at: (now + config.ttl()) as u64,
        };
        lemma_bound_beside(m, key->0, entry, now, config.max_entries, other);
    }
}

} // verus!
