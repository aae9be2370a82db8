//! What the calls of a proxy do, said of what callers give and of what the proxy holds.

use std::sync::Arc;

use vstd::prelude::*;
use vstd::string::*;

use super::laws::{lemma_found, lemma_routed, lemma_routes};
use super::lifecycle::{DeferredJsError, ProxyAddress, StopStep};
use super::upstreams::laws::{certified_name, hindered, plan_serves, rejects, uses};
use super::upstreams::{
    address_texts, plan_views, pools_planned, verified_name, Plan, PoolPlan, PortUpstream, Upstream,
};
use super::{
    build_router_config, find_app, finish_pool, lb_service_name, plan_for, pool_at, pool_made,
    pool_views, service_name, services_begun, task_views, tasks_fit, BuiltPool, PoolId, PoolKey,
    Proxy, ServiceChanges, StartPlan, UpstreamUpdate,
};
use crate::errors::JsError;
use crate::headers::laws::{header_is, header_lacks};
use crate::lb::TransportKind;
use crate::options::laws::{
    can_be_served, lemma_options_failure, lemma_options_kept, lemma_served_is_sound,
    options_as_asked, options_in_order, options_refused,
};
use crate::options::{
    app_views, name_taken, ApplicationOptionsParsed, ApplicationRoutingParsed, ProxyOptions,
    ProxyOptionsParsed, Route,
};
use crate::request::laws::host_part;
use crate::router::laws::{chosen, has_host, has_segment, law_requests_are_routed};
use crate::router::{request_filter, FilterError, PoolConfig, RouterConfig, RouterCtx};
use crate::sticky::{StickySessionConfig, StickySessionState};
use crate::table::Table;
use crate::text;
use crate::text::laws::{
    law_small_letters, law_small_letters_compare_without_case, same_but_case, small_form,
};

verus! {

/// A health check is named after its pool: its application and its transport.
pub proof fn law_service_names(app: &str, transport: TransportKind, r: String)
    requires
        call_ensures(lb_service_name, (app, transport), r),
    ensures
        transport == TransportKind::Http1 ==> r@ == "lb:"@ + app@ + ":http"@,
        transport == TransportKind::Http2 ==> r@ == "lb:"@ + app@ + ":http2"@,
        transport == TransportKind::Ws ==> r@ == "lb:"@ + app@ + ":ws"@,
{
}

/// Whether sticky sessions behave as options ask: by the same names, for the same time and up to the
/// same number, and with a secure cookie where the listener has TLS.
pub open spec fn sessions_as_asked(
    options: ProxyOptionsParsed,
    settings: StickySessionConfig,
) -> bool {
    &&& settings.enabled
    &&& settings.cookie_name@ == options.sticky_sessions.cookie_name@
    &&& settings.header_name@ == options.sticky_sessions.header_name@
    &&& settings.ttl_ms == options.sticky_sessions.ttl_ms
    &&& settings.max_entries == options.sticky_sessions.max_entries
    &&& settings.cookie_secure == (options.tls is Some)
}

/// A proxy is made of options with which nothing is wrong: it is what they ask for, is stopped, has
/// no upstreams and no pools, and has sticky sessions exactly where they are enabled.
pub proof fn law_new_proxy<L>(options: ProxyOptions, r: Result<Proxy<L>, JsError>)
    requires
        call_ensures(Proxy::<L>::new, (options,), r),
    ensures
        r is Ok <==> options_in_order(options),
        r matches Err(e) ==> options_refused(options, e),
        r matches Ok(proxy) ==> {
            &&& options_as_asked(options, proxy.options)
            &&& proxy@.valid()
            &&& proxy.lifecycle@.state is Stopped
            &&& proxy.lifecycle@.address is None
            &&& !proxy.lifecycle@.start_awaited && !proxy.lifecycle@.stop_awaited
            &&& forall|id: PoolId| !#[trigger] proxy.pools@.contains_key(id)
            &&& forall|i: int|
                0 <= i < options.applications@.len() ==> proxy.upstreams_by_app@.contains_key(
                    (#[trigger] options.applications@[i]).name@,
                ) && proxy.upstreams_by_app@[options.applications@[i].name@]@.len() == 0
            &&& proxy.router.sticky is Some <==> proxy.options.sticky_sessions.enabled
            &&& proxy.router.sticky matches Some(sticky) ==> sticky.wf() && sessions_as_asked(
                proxy.options,
                sticky.settings(),
            ) && sticky.model().entries.dom().is_empty()
        },
{
    lemma_options_failure(options);
    if let Ok(proxy) = r {
        lemma_options_kept(options, proxy.options);
        assert forall|id: PoolId| !#[trigger] proxy.pools@.contains_key(id) by {
            assert(!proxy@.pools.contains_key(id));
            assert(pool_views(proxy.pools@).contains_key(id) == proxy.pools@.contains_key(id));
        }
        let apps = app_views(proxy.options.applications@);
        assert forall|i: int|
            0 <= i < options.applications@.len() implies proxy.upstreams_by_app@.contains_key(
            (#[trigger] options.applications@[i]).name@,
        ) && proxy.upstreams_by_app@[options.applications@[i].name@]@.len() == 0 by {
            let name = options.applications@[i].name@;
            assert(proxy.options.applications@[i].name@ == name);
            assert(apps[i].name == name);
            assert(name_taken(apps, apps.len() as int, name));
            assert(proxy@.upstreams.contains_key(name));
            assert(proxy@.upstreams[name] == proxy.upstreams_by_app@[name]@);
        }
    }
}

/// A start that begins is told where to listen; one that does not begin changes nothing.
pub proof fn law_start<L>(proxy: &mut Proxy<L>, r: Result<Option<StartPlan>, JsError>)
    requires
        call_ensures(Proxy::<L>::start, (proxy,), r),
        old(proxy)@.valid(),
    ensures
        ({
            let phase = old(proxy)@.phase;
            &&& phase.state is Stopped && !phase.stop_awaited <==> r is Ok && r->Ok_0 is Some
            &&& phase.state is Starting <==> r is Ok && r->Ok_0 is None
            &&& r is Ok && r->Ok_0 is Some ==> {
                let plan = r->Ok_0->0;
                &&& plan.listen@ == old(proxy).options.listen@
                &&& plan.tls == old(proxy).options.tls
                &&& final(proxy)@.phase.state is Starting
            }
            &&& r matches Err(e) ==> e.code@ == "AlreadyStarted"@ && (if phase.state is Running {
                e.message@ == "Proxy is already started"@
            } else {
                e.message@ == "Proxy is stopping"@
            })
            &&& !(r is Ok && r->Ok_0 is Some) ==> final(proxy)@ == old(proxy)@
            &&& final(proxy)@.pools == old(proxy)@.pools
            &&& final(proxy)@.upstreams == old(proxy)@.upstreams
            &&& final(proxy)@.routes == old(proxy)@.routes
        }),
{
}

/// A stop always comes through: it begins where the proxy runs or starts, waits where a stop has yet
/// to end, and has nothing to do otherwise. It changes neither upstreams nor pools nor routes.
pub proof fn law_stop<L>(
    proxy: &mut Proxy<L>,
    r: Result<StopStep, JsError>,
    seen: &Proxy<L>,
    address: Option<ProxyAddress>,
)
    requires
        call_ensures(Proxy::<L>::stop, (proxy,), r),
        old(proxy)@.valid(),
        call_ensures(Proxy::<L>::address, (seen,), address),
    ensures
        r is Ok,
        r->Ok_0 == StopStep::Done <==> old(proxy)@.phase.state is Stopped && !old(
            proxy)@.phase.stop_awaited,
        r->Ok_0 == StopStep::Wait <==> old(proxy)@.phase.stop_awaited,
        r->Ok_0 is Begin <==> old(proxy)@.phase.state is Running || old(
            proxy)@.phase.state is Starting,
        r->Ok_0 is Begin ==> final(proxy)@.phase.state is Stopping && final(
            proxy)@.phase.stop_awaited,
        final(proxy)@.pools == old(proxy)@.pools,
        final(proxy)@.upstreams == old(proxy)@.upstreams,
        final(proxy)@.routes == old(proxy)@.routes,
        address is Some <==> seen@.phase.state is Running && seen@.phase.address is Some,
        address matches Some(a) ==> a.hostname@ == seen@.phase.address->0.hostname@ && a.port
            == seen@.phase.address->0.port,
{
}

/// The health checks of a proxy are one for each of its pools, named after it and of its load
/// balancer.
pub proof fn law_lb_tasks<L>(proxy: &Proxy<L>, r: Vec<(String, Arc<L>)>, id: PoolId, i: int)
    requires
        call_ensures(Proxy::<L>::lb_tasks, (proxy,), r),
    ensures
        proxy.pools@.contains_key(id) ==> exists|k: int|
            0 <= k < r@.len() && (#[trigger] r@[k]).0@ == service_name(id) && *r@[k].1
                == *proxy.pools@[id].lb,
        0 <= i < r@.len() ==> exists|of: PoolId| #[trigger]
            proxy.pools@.contains_key(of) && r@[i].0@ == service_name(of) && *r@[i].1
                == *proxy.pools@[of].lb,
        r@.len() == proxy.pools@.dom().len(),
{
    let pools = pool_views(proxy.pools@);
    let ids = choose|ids: Seq<PoolId>|
        {
            &&& ids.no_duplicates()
            &&& ids.to_set() == pools.dom()
            &&& r@.len() == ids.len()
            &&& forall|i: int|
                0 <= i < r@.len() ==> (#[trigger] r@[i]).0@ == service_name(ids[i]) && *r@[i].1
                    == pools[ids[i]].lb
        };
    assert(tasks_fit(r@, proxy@.pools));
    assert(pools.dom() =~= proxy.pools@.dom());
    ids.unique_seq_to_set();
    if proxy.pools@.contains_key(id) {
        assert(pools.contains_key(id));
        assert(ids.to_set().contains(id));
        let k = choose|k: int| 0 <= k < ids.len() && ids[k] == id;
        assert(r@[k].0@ == service_name(ids[k]));
    }
    if 0 <= i < r@.len() {
        assert(ids.to_set().contains(ids[i]));
        assert(pools.contains_key(ids[i]));
        assert(proxy.pools@.contains_key(ids[i]));
        assert(r@[i].0@ == service_name(ids[i]));
    }
}

/// Whether an application of a proxy has a name.
pub open spec fn application_is<L>(
    proxy: Proxy<L>,
    name: Seq<char>,
    app: ApplicationOptionsParsed,
) -> bool {
    app.name@ == name && exists|i: int|
        0 <= i < proxy.options.applications@.len() && #[trigger] proxy.options.applications@[i]
            == app
}

/// Whether an application of a proxy has a name.
pub open spec fn knows<L>(proxy: Proxy<L>, name: Seq<char>) -> bool {
    exists|i: int|
        0 <= i < proxy.options.applications@.len() && (
        #[trigger] proxy.options.applications@[i]).name@ == name
}

/// Whether a change of upstreams is to these upstreams: its pools serve them, one for each transport
/// that they use.
pub open spec fn updates_to(
    app: ApplicationOptionsParsed,
    upstreams: Seq<Upstream>,
    update: UpstreamUpdate,
) -> bool {
    &&& update.app_name@ == app.name@
    &&& update.upstreams@ == upstreams
    &&& forall|i: int|
        0 <= i < update.pools@.len() ==> plan_serves(app, upstreams, #[trigger] update.pools@[i])
    &&& forall|i: int, j: int|
        0 <= i < j < update.pools@.len() ==> (#[trigger] update.pools@[i]).transport != (
        #[trigger] update.pools@[j]).transport
    &&& forall|t: TransportKind| #[trigger]
        uses(upstreams, t) ==> exists|i: int|
            0 <= i < update.pools@.len() && (#[trigger] update.pools@[i]).transport == t
}

proof fn lemma_application<L>(proxy: Proxy<L>, name: Seq<char>)
    requires
        proxy@.valid(),
    ensures
        knows(proxy, name) <==> proxy.upstreams_by_app@.contains_key(name),
        knows(proxy, name) <==> proxy@.application(name) is Some,
        proxy.upstreams_by_app@.contains_key(name) ==> proxy@.upstreams[name]
            == proxy.upstreams_by_app@[name]@,
        forall|app: ApplicationOptionsParsed| #[trigger]
            application_is(proxy, name, app) ==> proxy@.application(name) == Some(
                (app@, proxy.upstreams_by_app@[name]@),
            ),
{
    let apps = proxy@.apps;
    let given = proxy.options.applications@;
    lemma_found(apps, name);
    assert(proxy@.upstreams.contains_key(name) == proxy.upstreams_by_app@.contains_key(name));
    assert(proxy@.upstreams.contains_key(name) <==> name_taken(apps, apps.len() as int, name));
    if knows(proxy, name) {
        let i = choose|i: int| 0 <= i < given.len() && (#[trigger] given[i]).name@ == name;
        assert(apps[i].name == name);
    }
    if name_taken(apps, apps.len() as int, name) {
        let i = choose|i: int| 0 <= i < apps.len() && (#[trigger] apps[i]).name == name;
        assert(given[i].name@ == name);
    }
    assert forall|app: ApplicationOptionsParsed| #[trigger] application_is(
        proxy,
        name,
        app,
    ) implies proxy@.application(name) == Some((app@, proxy.upstreams_by_app@[name]@)) by {
        let i = choose|i: int| 0 <= i < given.len() && #[trigger] given[i] == app;
        assert(given[i].name@ == name);
        let found = find_app(apps, name, 0)->0;
        let j = choose|j: int| 0 <= j < apps.len() && apps[j] == found;
        assert(apps[i] == app@);
        assert(j == i) by {
            if j < i {
                assert(crate::options::laws::apart(apps[j], apps[i]));
            }
            if i < j {
                assert(crate::options::laws::apart(apps[i], apps[j]));
            }
        }
    }
}

proof fn lemma_update_to(
    app: ApplicationOptionsParsed,
    upstreams: Seq<Upstream>,
    planned: Result<Seq<Plan>, super::Rejection>,
    update: UpstreamUpdate,
)
    requires
        planned == pools_planned(app@, upstreams),
        planned == Ok::<Seq<Plan>, super::Rejection>(plan_views(update.pools@)),
        update.app_name@ == app.name@,
        update.upstreams@ == upstreams,
    ensures
        updates_to(app, upstreams, update),
        !hindered(app, upstreams),
{
    super::upstreams::laws::lemma_plans_serve(app, upstreams, update.pools@);
}

/// Adding an upstream comes to the upstreams that there were with this one behind them. It is
/// rejected where there is no such application, where the upstream is there already, and where the
/// upstreams could then not be served.
pub proof fn law_add_upstream<L>(
    proxy: &Proxy<L>,
    app_name: &str,
    upstream: &PortUpstream,
    r: Result<UpstreamUpdate, DeferredJsError>,
    app: ApplicationOptionsParsed,
)
    requires
        call_ensures(Proxy::<L>::add_upstream, (proxy, app_name, upstream), r),
        proxy@.valid(),
    ensures
        !knows(*proxy, app_name@) ==> r is Err && rejects(
            r->Err_0,
            "UnknownApplication"@,
            "Unknown application '"@ + app_name@ + "'"@,
        ),
        application_is(*proxy, app_name@, app) ==> {
            let current = proxy.upstreams_by_app@[app_name@]@;
            &&& current.contains(upstream@) ==> r is Err && rejects(
                r->Err_0,
                "UpstreamAlreadyExists"@,
                "Upstream already exists"@,
            )
            &&& !current.contains(upstream@) && hindered(app, current.push(upstream@))
                ==> r is Err && (r->Err_0.code@ == "InvalidProxyOptions"@ || r->Err_0.code@
                == "InvalidApplicationOptions"@)
            &&& !current.contains(upstream@) && upstream.secure && certified_name(app) is None
                ==> r is Err && rejects(
                r->Err_0,
                "InvalidApplicationOptions"@,
                "ApplicationOptions.sni is required when using secure upstreams for path/default routing"@,
            )
            &&& !current.contains(upstream@) && certified_name(app) is Some && hindered(
                app,
                current.push(upstream@),
            ) ==> r is Err && rejects(
                r->Err_0,
                "InvalidProxyOptions"@,
                "Mixing secure and insecure upstreams within the same (app, transport) pool is not supported"@,
            )
            &&& !current.contains(upstream@) && !hindered(app, current.push(upstream@))
                ==> r is Ok
            &&& r matches Ok(update) ==> updates_to(app, current.push(upstream@), update)
                && update.health_check_interval_ms == proxy.options.health_check_interval_ms
        },
{
    lemma_application(*proxy, app_name@);
    if application_is(*proxy, app_name@, app) {
        let current = proxy.upstreams_by_app@[app_name@]@;
        let more = current.push(upstream@);
        assert(verified_name(app@) == certified_name(app));
        super::upstreams::laws::lemma_servable(app, more);
        assert(more[current.len() as int] == upstream@);
        if let Ok(update) = r {
            lemma_update_to(app, more, pools_planned(app@, more), update);
        }
    }
}

/// Removing an upstream comes to the upstreams that there were without this one. It is rejected
/// where there is no such application, and where the upstream is not there.
#[verifier::spinoff_prover]
pub proof fn law_remove_upstream<L>(
    proxy: &Proxy<L>,
    app_name: &str,
    upstream: &PortUpstream,
    r: Result<UpstreamUpdate, DeferredJsError>,
    app: ApplicationOptionsParsed,
    other: Upstream,
)
    requires
        call_ensures(Proxy::<L>::remove_upstream, (proxy, app_name, upstream), r),
        proxy@.valid(),
    ensures
        !knows(*proxy, app_name@) ==> r is Err && rejects(
            r->Err_0,
            "UnknownApplication"@,
            "Unknown application '"@ + app_name@ + "'"@,
        ),
        application_is(*proxy, app_name@, app) ==> {
            let current = proxy.upstreams_by_app@[app_name@]@;
            &&& !current.contains(upstream@) ==> r is Err && rejects(
                r->Err_0,
                "UpstreamNotFound"@,
                "Upstream not found"@,
            )
            &&& current.contains(upstream@) ==> r is Ok
            &&& r matches Ok(update) ==> {
                &&& updates_to(app, update.upstreams@, update)
                &&& update.upstreams@.len() == current.len() - 1
                &&& !update.upstreams@.contains(upstream@)
                &&& other != upstream@ ==> (update.upstreams@.contains(other)
                    <==> current.contains(other))
                &&& update.health_check_interval_ms == proxy.options.health_check_interval_ms
            }
        },
{
    lemma_application(*proxy, app_name@);
    if application_is(*proxy, app_name@, app) {
        let current = proxy.upstreams_by_app@[app_name@]@;
        if current.contains(upstream@) {
            let fewer = current.remove_value(upstream@);
            current.index_of_first_ensures(upstream@);
            let at = current.index_of_first(upstream@)->0;
            assert(fewer == current.remove(at));
            assert(proxy@.upstreams[app_name@].no_duplicates());
            assert(!fewer.contains(upstream@)) by {
                if fewer.contains(upstream@) {
                    let k = choose|k: int| 0 <= k < fewer.len() && fewer[k] == upstream@;
                    let x = if k < at {
                        k
                    } else {
                        k + 1
                    };
                    assert(current[x] == upstream@ && current[at] == upstream@);
                }
            }
            assert(other != upstream@ ==> (fewer.contains(other) <==> current.contains(other)))
                by {
                if fewer.contains(other) {
                    let k = choose|k: int| 0 <= k < fewer.len() && fewer[k] == other;
                    let x = if k < at {
                        k
                    } else {
                        k + 1
                    };
                    assert(current[x] == other);
                }
                if current.contains(other) && other != upstream@ {
                    let k = choose|k: int| 0 <= k < current.len() && current[k] == other;
                    let x = if k < at {
                        k
                    } else {
                        k - 1
                    };
                    assert(fewer[x] == other);
                }
            }
            super::laws::lemma_fewer_planned(proxy@, app@, upstream@);
            if let Ok(update) = r {
                lemma_update_to(app, fewer, pools_planned(app@, fewer), update);
            }
        }
    }
}

/// Whether a pool is made of a plan and of what was built for it.
pub open spec fn made_of<L>(pool: PoolConfig<L>, plan: PoolPlan, built: BuiltPool<L>) -> bool {
    &&& *pool.lb == *built.lb
    &&& pool.secure == plan.secure
    &&& pool.verify_hostname@ == plan.verify_hostname@
    &&& pool.backends@ == built.backends@
}

/// Whether two pools are the same.
pub open spec fn same_pool<L>(a: PoolConfig<L>, b: PoolConfig<L>) -> bool {
    &&& *a.lb == *b.lb
    &&& a.secure == b.secure
    &&& a.verify_hostname@ == b.verify_hostname@
    &&& a.backends@ == b.backends@
}

/// Whether a pool that may be missing is the one that the proxy has under this key.
pub open spec fn is_pool<L>(
    pools: Map<PoolId, PoolConfig<L>>,
    app: Seq<char>,
    transport: TransportKind,
    pool: Option<PoolConfig<L>>,
) -> bool {
    match pool {
        Some(pool) => pools.contains_key(PoolId { app, transport }) && same_pool(
            pool,
            pools[PoolId { app, transport }],
        ),
        None => !pools.contains_key(PoolId { app, transport }),
    }
}

proof fn lemma_plan_for(plans: Seq<PoolPlan>, n: int, i: int)
    requires
        0 <= i < n <= plans.len(),
        forall|a: int, b: int|
            0 <= a < b < plans.len() ==> (#[trigger] plans[a]).transport != (
            #[trigger] plans[b]).transport,
    ensures
        plan_for(plan_views(plans), plans[i].transport, n) == Some(i),
    decreases n,
{
    assert(plan_views(plans)[n - 1] == plans[n - 1]@);
    if i < n - 1 {
        assert(plans[i].transport != plans[n - 1].transport);
        lemma_plan_for(plans, n - 1, i);
    }
}

proof fn lemma_not_planned(plans: Seq<PoolPlan>, n: int, t: TransportKind)
    requires
        0 <= n <= plans.len(),
        forall|i: int| 0 <= i < n ==> (#[trigger] plans[i]).transport != t,
    ensures
        plan_for(plan_views(plans), t, n) is None,
    decreases n,
{
    if n > 0 {
        assert(plan_views(plans)[n - 1] == plans[n - 1]@);
        assert(plans[n - 1].transport != t);
        lemma_not_planned(plans, n - 1, t);
    }
}

/// Making a change replaces the upstreams and the pools of its application, and nothing of any other:
/// for each plan there is the pool that was built for it, and for no other transport is there one.
/// The health checks that are put in place are those of the new pools, and those that end are of
/// the pools that are gone. Nothing else about the proxy changes but the routes.
pub proof fn law_commit_update<L>(
    proxy: &mut Proxy<L>,
    update: UpstreamUpdate,
    built: Vec<BuiltPool<L>>,
    r: Result<ServiceChanges<L>, DeferredJsError>,
    i: int,
    t: TransportKind,
    other: PoolId,
)
    requires
        call_ensures(Proxy::<L>::commit_update, (proxy, update, built), r),
        built@.len() == update.pools@.len(),
        forall|a: int, b: int|
            0 <= a < b < update.pools@.len() ==> (#[trigger] update.pools@[a]).transport != (
            #[trigger] update.pools@[b]).transport,
        other.app != update.app_name@,
    ensures
        r is Ok <==> old(proxy).upstreams_by_app@.contains_key(update.app_name@),
        r is Err ==> *final(proxy) == *old(proxy) && rejects(
            r->Err_0,
            "UnknownApplication"@,
            "Unknown application '"@ + update.app_name@ + "'"@,
        ),
        r is Ok ==> {
            let app = update.app_name@;
            let before = old(proxy).pools@;
            let after = final(proxy).pools@;
            let changes = r->Ok_0;
            &&& final(proxy).upstreams_by_app@.contains_key(app)
            &&& final(proxy).upstreams_by_app@[app]@ == update.upstreams@
            &&& final(proxy).upstreams_by_app@.contains_key(other.app) == old(
                proxy).upstreams_by_app@.contains_key(other.app)
            &&& old(proxy).upstreams_by_app@.contains_key(other.app) ==> final(
                proxy).upstreams_by_app@[other.app]@ == old(proxy).upstreams_by_app@[other.app]@
            &&& 0 <= i < built@.len() ==> {
                let id = PoolId { app, transport: update.pools@[i].transport };
                &&& after.contains_key(id)
                &&& made_of(after[id], update.pools@[i], built@[i])
                &&& changes.to_upsert@[i].0@ == service_name(id)
                &&& *changes.to_upsert@[i].1 == *built@[i].lb
            }
            &&& (forall|k: int| 0 <= k < update.pools@.len() ==> (#[trigger] update.pools@[k]).transport
                != t) ==> !after.contains_key(PoolId { app, transport: t })
            &&& after.contains_key(other) == before.contains_key(other)
            &&& before.contains_key(other) ==> same_pool(after[other], before[other])
            &&& changes.to_upsert@.len() == built@.len()
            &&& changes.is_running == (old(proxy)@.phase.state is Running)
            &&& before.contains_key(PoolId { app, transport: t }) && !after.contains_key(
                PoolId { app, transport: t },
            ) <==> address_texts(changes.to_remove@).contains(
                service_name(PoolId { app, transport: t }),
            )
            &&& !address_texts(changes.to_remove@).contains(service_name(other))
            &&& final(proxy)@.phase == old(proxy)@.phase
            &&& final(proxy)@.apps == old(proxy)@.apps
            &&& final(proxy).options == old(proxy).options
            &&& final(proxy).router.sticky == old(proxy).router.sticky
        },
{
    assert(old(proxy)@.upstreams.contains_key(update.app_name@) == old(
        proxy).upstreams_by_app@.contains_key(update.app_name@));
    if let Ok(changes) = r {
        let app = update.app_name@;
        let plans = update.pools@;
        let n = plans.len() as int;
        let m = old(proxy)@;
        let after = final(proxy)@;
        assert(after == m.updated(update@, built@));
        assert(update@.pools == plan_views(plans));
        assert(plan_views(plans).len() == n);
        let a = final(proxy).pools@;
        let b = old(proxy).pools@;
        assert(after.pools == pool_views(a));
        assert(m.pools == pool_views(b));
        assert(after.upstreams.contains_key(app));
        assert(final(proxy).upstreams_by_app@.contains_key(app));
        assert(after.upstreams[app] == final(proxy).upstreams_by_app@[app]@);
        assert(after.upstreams.contains_key(other.app) == m.upstreams.contains_key(other.app));
        assert(final(proxy).upstreams_by_app@.contains_key(other.app)
            == after.upstreams.contains_key(other.app));
        assert(old(proxy).upstreams_by_app@.contains_key(other.app) == m.upstreams.contains_key(
            other.app,
        ));
        if m.upstreams.contains_key(other.app) {
            assert(after.upstreams[other.app] == m.upstreams[other.app]);
        }
        let views = task_views(changes.to_upsert@);
        assert(views.len() == changes.to_upsert@.len());
        if 0 <= i < n {
            let id = PoolId { app, transport: plans[i].transport };
            lemma_plan_for(plans, n, i);
            assert(plan_views(plans)[i] == plans[i]@);
            assert(after.pools.contains_key(id));
            assert(a.contains_key(id));
            assert(after.pools[id] == pool_made(plans[i]@, built@[i]));
            assert(after.pools[id] == a[id]@);
            assert(views[i] == services_begun(update@, built@)[i]);
        }
        let gone = PoolId { app, transport: t };
        assert(after.pools.contains_key(gone) == a.contains_key(gone));
        assert(m.pools.contains_key(gone) == b.contains_key(gone));
        if forall|k: int| 0 <= k < plans.len() ==> (#[trigger] plans[k]).transport != t {
            lemma_not_planned(plans, n, t);
        } else {
            let k = choose|k: int| 0 <= k < plans.len() && (#[trigger] plans[k]).transport == t;
            lemma_plan_for(plans, n, k);
        }
        assert(after.pools.contains_key(other) == a.contains_key(other));
        assert(m.pools.contains_key(other) == b.contains_key(other));
        if b.contains_key(other) {
            assert(after.pools[other] == m.pools[other]);
            assert(after.pools[other] == a[other]@);
            assert(m.pools[other] == b[other]@);
        }
        super::laws::lemma_services_ended(m.pools, app, plan_views(plans), gone);
        super::laws::lemma_services_ended(m.pools, app, plan_views(plans), other);
    }
}

/// After a change, and at all other times, the routes lead each application's requests to its pools
/// as they are.
pub proof fn law_routes_lead_to_the_pools<L>(
    proxy: Proxy<L>,
    i: int,
)
    requires
        proxy@.valid(),
        0 <= i < proxy.options.applications@.len(),
    ensures
        ({
            let name = proxy.options.applications@[i].name@;
            let routed = proxy.router.config.apps@;
            &&& routed.contains_key(name)
            &&& is_pool(proxy.pools@, name, TransportKind::Http1, routed[name].http1)
            &&& is_pool(proxy.pools@, name, TransportKind::Http2, routed[name].http2)
            &&& is_pool(proxy.pools@, name, TransportKind::Ws, routed[name].ws)
        }),
{
    let apps = proxy@.apps;
    let name = proxy.options.applications@[i].name@;
    assert(apps[i] == proxy.options.applications@[i]@);
    lemma_routes(apps, proxy@.pools, apps.len() as int, i);
    let routes = proxy@.routes;
    assert(routes.apps.contains_key(name));
    assert(proxy.router.config.apps@.contains_key(name));
    let pools = proxy.router.config.apps@[name];
    assert(routes.apps[name] == pools@);
    lemma_is_pool(proxy.pools@, name, TransportKind::Http1, pools.http1);
    lemma_is_pool(proxy.pools@, name, TransportKind::Http2, pools.http2);
    lemma_is_pool(proxy.pools@, name, TransportKind::Ws, pools.ws);
}

proof fn lemma_is_pool<L>(
    pools: Map<PoolId, PoolConfig<L>>,
    app: Seq<char>,
    transport: TransportKind,
    pool: Option<PoolConfig<L>>,
)
    requires
        crate::router::opt_pool(pool) == pool_at(pool_views(pools), app, transport),
    ensures
        is_pool(pools, app, transport, pool),
{
    let id = PoolId { app, transport };
    assert(pool_views(pools).contains_key(id) == pools.contains_key(id));
    if pools.contains_key(id) {
        assert(pool_views(pools)[id] == pools[id]@);
    }
}

/// What was built for a pool balances over the addresses that it was built of, and where nothing
/// could be built the reason is told.
pub proof fn law_finish_pool<L>(
    addresses: &Vec<String>,
    built: Result<L, String>,
    r: Result<BuiltPool<L>, DeferredJsError>,
    address: Seq<char>,
)
    requires
        call_ensures(finish_pool::<L>, (addresses, built), r),
    ensures
        built matches Ok(lb) ==> {
            &&& r is Ok
            &&& *(r->Ok_0.lb) == lb
            &&& r->Ok_0.backends@.contains(address) <==> exists|i: int|
                0 <= i < addresses@.len() && (#[trigger] addresses@[i])@ == address
        },
        built matches Err(reason) ==> r is Err && rejects(
            r->Err_0,
            "InvalidProxyOptions"@,
            "Failed to build load balancer: "@ + reason@,
        ),
{
    if built is Ok {
        let texts = address_texts(addresses@);
        if texts.contains(address) {
            let i = choose|i: int| 0 <= i < texts.len() && texts[i] == address;
            assert(addresses@[i]@ == address);
        }
        if exists|i: int| 0 <= i < addresses@.len() && (#[trigger] addresses@[i])@ == address {
            let i = choose|i: int|
                0 <= i < addresses@.len() && (#[trigger] addresses@[i])@ == address;
            assert(texts[i] == address);
        }
    }
}

/// Whether a routing is one that answers for a request: by its host without regard to case, by its
/// first path segment, or by default.
pub open spec fn routes_request(
    routing: ApplicationRoutingParsed,
    host: Option<Seq<char>>,
    segment: Option<Seq<char>>,
) -> bool {
    match routing {
        ApplicationRoutingParsed::Subdomain { name } => host is Some && same_but_case(
            name@,
            host->0,
        ),
        ApplicationRoutingParsed::Path { name } => segment == Some(name@),
        ApplicationRoutingParsed::Default => true,
    }
}

/// Whether no application before `routing` in rank answers for a request: subdomains come before
/// paths, and paths before the default.
pub open spec fn none_before<L>(
    proxy: Proxy<L>,
    routing: ApplicationRoutingParsed,
    host: Option<Seq<char>>,
    segment: Option<Seq<char>>,
) -> bool {
    forall|j: int|
        0 <= j < proxy.options.applications@.len() ==> {
            let other = (#[trigger] proxy.options.applications@[j]).routing;
            &&& !(routing is Subdomain) && other is Subdomain ==> !routes_request(
                other,
                host,
                segment,
            )
            &&& routing is Default && other is Path ==> !routes_request(other, host, segment)
        }
}

/// A request has the application as its destination that it is for. One whose `Host` header names an
/// application's subdomain, in whatever case and with whatever port, goes to that application. One
/// whose host is no application's goes by its first path segment, which is then stripped, and one
/// whose path is no application's either goes to the default.
pub proof fn law_requests_reach_their_application<L>(
    proxy: Proxy<L>,
    i: int,
    config: &RouterConfig<L>,
    sticky: &mut Option<StickySessionState>,
    headers: &http::HeaderMap<http::HeaderValue>,
    path: &str,
    is_upgrade: bool,
    now_nanos: u128,
    ctx: &mut RouterCtx<L>,
    r: Result<bool, FilterError>,
    host: Option<Seq<char>>,
    segment: Option<Seq<char>>,
)
    requires
        proxy@.valid(),
        0 <= i < proxy.options.applications@.len(),
        *config == *proxy.router.config,
        call_ensures(
            request_filter::<L>,
            (config, sticky, headers, path, is_upgrade, now_nanos, ctx),
            r,
        ),
        old(ctx).resolved_pool is None,
        has_host(*headers, host),
        has_segment(path@, segment),
        routes_request(proxy.options.applications@[i].routing, host, segment),
        none_before(proxy, proxy.options.applications@[i].routing, host, segment),
    ensures
        final(ctx).app_name is Some,
        final(ctx).app_name->0@ == proxy.options.applications@[i].name@,
        proxy.options.applications@[i].routing is Path ==> final(ctx).path_rewrite_segment is Some
            && Some(final(ctx).path_rewrite_segment->0@) == segment,
        !(proxy.options.applications@[i].routing is Path) ==> final(ctx).path_rewrite_segment is None,
        r matches Err(e) ==> e.kind == crate::router::FilterErrorKind::HttpStatus(503),
{
    if host is Some {
        lemma_small_host(*headers, host->0);
    }
    lemma_chosen_application(proxy, i, host, segment);
    law_requests_are_routed(
        config,
        sticky,
        headers,
        path,
        is_upgrade,
        now_nanos,
        ctx,
        r,
        host,
        segment,
    );
}

proof fn lemma_small_host(headers: http::HeaderMap<http::HeaderValue>, host: Seq<char>)
    requires
        has_host(headers, Some(host)),
    ensures
        text::lowered(host) == host,
{
    let (t, name) = choose|t: Seq<char>, name: Seq<char>| #[trigger]
        host_part(t, name) && (header_is(headers, "host"@, t) || (header_lacks(headers, "host"@)
            && header_is(headers, ":authority"@, t))) && small_form(name, host);
    assert(small_form(host, host));
    law_small_letters(host);
}

proof fn lemma_chosen_application<L>(
    proxy: Proxy<L>,
    i: int,
    host: Option<Seq<char>>,
    segment: Option<Seq<char>>,
)
    requires
        proxy@.valid(),
        0 <= i < proxy.options.applications@.len(),
        host is Some ==> text::lowered(host->0) == host->0,
        routes_request(proxy.options.applications@[i].routing, host, segment),
        none_before(proxy, proxy.options.applications@[i].routing, host, segment),
    ensures
        chosen(*proxy.router.config, host, segment) == Some(
            (
                proxy.options.applications@[i].name@,
                if proxy.options.applications@[i].routing is Path {
                    segment
                } else {
                    None
                },
            ),
        ),
{
    let apps = proxy@.apps;
    let given = proxy.options.applications@;
    let config = *proxy.router.config;
    let app = given[i];
    assert(apps[i] == app@);
    let n = apps.len() as int;
    lemma_routes(apps, proxy@.pools, n, i);
    lemma_routed(apps, proxy@.pools, n);
    let routes = proxy@.routes;
    if host is Some {
        assert(routes.subdomains.contains_key(host->0) == config.subdomain_routes@.contains_key(
            host->0,
        ));
        if routes.subdomains.contains_key(host->0) {
            assert(routes.subdomains[host->0] == config.subdomain_routes@[host->0]@);
            let j = choose|j: int|
                0 <= j < n && (#[trigger] apps[j]).name == routes.subdomains[host->0]
                    && apps[j].route is Subdomain && text::lowered(apps[j].route->Subdomain_0)
                    == host->0;
            assert(apps[j] == given[j]@);
            law_small_letters_compare_without_case(apps[j].route->Subdomain_0, host->0);
            assert(routes_request(given[j].routing, host, segment));
            assert(given[j].routing is Subdomain);
        }
    }
    if segment is Some {
        assert(routes.paths.contains_key(segment->0) == config.path_routes@.contains_key(
            segment->0,
        ));
        if routes.paths.contains_key(segment->0) {
            assert(routes.paths[segment->0] == config.path_routes@[segment->0]@);
            let j = choose|j: int|
                0 <= j < n && (#[trigger] apps[j]).name == routes.paths[segment->0]
                    && apps[j].route == Route::Path(segment->0);
            assert(apps[j] == given[j]@);
            assert(routes_request(given[j].routing, host, segment));
            assert(given[j].routing is Path);
        }
    }
    if let ApplicationRoutingParsed::Subdomain { name } = app.routing {
        law_small_letters_compare_without_case(name@, host->0);
    }
}

/// The routes that are built lead each application's requests to its pools, and where they lead by
/// host, by path or by default is to an application that is so routed.
pub proof fn law_routes_are_built<L>(
    options: &ProxyOptionsParsed,
    pools: &Table<PoolKey, PoolConfig<L>>,
    r: RouterConfig<L>,
    i: int,
    host: Seq<char>,
    segment: Seq<char>,
)
    requires
        call_ensures(build_router_config::<L>, (options, pools), r),
        can_be_served(options.applications@),
        0 <= i < options.applications@.len(),
    ensures
        ({
            let app = options.applications@[i];
            &&& r.apps@.contains_key(app.name@)
            &&& is_pool(pools@, app.name@, TransportKind::Http1, r.apps@[app.name@].http1)
            &&& is_pool(pools@, app.name@, TransportKind::Http2, r.apps@[app.name@].http2)
            &&& is_pool(pools@, app.name@, TransportKind::Ws, r.apps@[app.name@].ws)
            &&& match app.routing {
                ApplicationRoutingParsed::Subdomain { name } => small_form(name@, host)
                    ==> r.subdomain_routes@.contains_key(host) && r.subdomain_routes@[host]@
                    == app.name@,
                ApplicationRoutingParsed::Path { name } => r.path_routes@.contains_key(name@)
                    && r.path_routes@[name@]@ == app.name@,
                ApplicationRoutingParsed::Default => r.default_app is Some && r.default_app->0@
                    == app.name@,
            }
        }),
        r.subdomain_routes@.contains_key(host) ==> exists|j: int|
            0 <= j < options.applications@.len() && (#[trigger] options.applications@[j]).name@
                == r.subdomain_routes@[host]@ && options.applications@[j].routing is Subdomain
                && small_form(options.applications@[j].routing->Subdomain_name@, host),
        r.path_routes@.contains_key(segment) ==> exists|j: int|
            0 <= j < options.applications@.len() && (#[trigger] options.applications@[j]).name@
                == r.path_routes@[segment]@ && options.applications@[j].routing is Path
                && options.applications@[j].routing->Path_name@ == segment,
        r.default_app is Some ==> exists|j: int|
            0 <= j < options.applications@.len() && (#[trigger] options.applications@[j]).name@
                == r.default_app->0@ && options.applications@[j].routing is Default,
{
    let given = options.applications@;
    let apps = app_views(given);
    let n = apps.len() as int;
    let all = pool_views(pools@);
    lemma_served_is_sound(given);
    assert(apps[i] == given[i]@);
    lemma_routes(apps, all, n, i);
    lemma_routed(apps, all, n);
    let routes = r@;
    let name = given[i].name@;
    assert(routes.apps.contains_key(name) == r.apps@.contains_key(name));
    assert(routes.apps[name] == r.apps@[name]@);
    lemma_is_pool(pools@, name, TransportKind::Http1, r.apps@[name].http1);
    lemma_is_pool(pools@, name, TransportKind::Http2, r.apps@[name].http2);
    lemma_is_pool(pools@, name, TransportKind::Ws, r.apps@[name].ws);
    match given[i].routing {
        ApplicationRoutingParsed::Subdomain { name: subdomain } => {
            law_small_letters(subdomain@);
            let key = text::lowered(subdomain@);
            assert(routes.subdomains.contains_key(key));
            assert(r.subdomain_routes@.contains_key(key));
            assert(routes.subdomains[key] == r.subdomain_routes@[key]@);
        },
        ApplicationRoutingParsed::Path { name: path } => {
            assert(routes.paths.contains_key(path@));
            assert(r.path_routes@.contains_key(path@));
            assert(routes.paths[path@] == r.path_routes@[path@]@);
        },
        ApplicationRoutingParsed::Default => {},
    }
    if r.subdomain_routes@.contains_key(host) {
        assert(routes.subdomains.contains_key(host));
        assert(routes.subdomains[host] == r.subdomain_routes@[host]@);
        let j = choose|j: int|
            0 <= j < n && (#[trigger] apps[j]).name == routes.subdomains[host]
                && apps[j].route is Subdomain && text::lowered(apps[j].route->Subdomain_0) == host;
        assert(apps[j] == given[j]@);
        law_small_letters(apps[j].route->Subdomain_0);
        assert(given[j].name@ == r.subdomain_routes@[host]@);
    }
    if r.path_routes@.contains_key(segment) {
        assert(routes.paths.contains_key(segment));
        assert(routes.paths[segment] == r.path_routes@[segment]@);
        let j = choose|j: int|
            0 <= j < n && (#[trigger] apps[j]).name == routes.paths[segment] && apps[j].route
                == Route::Path(segment);
        assert(apps[j] == given[j]@);
        assert(given[j].name@ == r.path_routes@[segment]@);
    }
    if r.default_app is Some {
        assert(routes.default_app is Some);
        let j = choose|j: int|
            0 <= j < n && (#[trigger] apps[j]).name == routes.default_app->0
                && apps[j].route is Default;
        assert(apps[j] == given[j]@);
        assert(given[j].name@ == r.default_app->0@);
    }
}

} // verus!
