//! What holds of a proxy whatever is done with it.

use std::sync::Arc;

use vstd::prelude::*;

use super::lifecycle::{
    start_channel_closed, start_outcome, stop_channel_closed, stop_outcome, BoundListenAddress,
    DeferredJsError, Lifecycle, Phase, ProxyAddress, StartStatus, StartStep, StopStatus, StopStep,
};
use super::listener::{listen_error, tls_error, SetupFailure};
use super::upstreams::laws::{rejects, tells};
use super::upstreams::{
    group, mixed, mixing_rejected, name_required, plans_upto, pool_planned, pools_planned,
    transports, verified_name, Plan, Upstream,
};
use super::{
    find_app, plan_for, pool_at, pool_made, pools_of, routes_to, routes_upto, service_name,
    services_begun, services_ended, task_views, tasks_fit, unknown_application, BuiltPool, Model,
    PoolId, Update,
};
use crate::errors::{codes, ErrorClass, Failure, JsError};
use crate::lb::TransportKind;
use crate::options::laws::{apart, sound};
use crate::options::{name_taken, App, ListenerTlsOptionsParsed, Route};
use crate::router::{Destination, Pool};
use crate::text;

verus! {

/// Whether a pool is the one that an application's upstreams of its transport ask for: it has TLS
/// exactly when they do, and then verifies the application's name.
pub open spec fn pool_fits<L>(
    app: App,
    upstreams: Seq<Upstream>,
    transport: TransportKind,
    pool: Pool<L>,
) -> bool {
    let members = group(upstreams, transport);
    &&& !mixed(members)
    &&& pool.secure == members[0].secure
    &&& if pool.secure {
        verified_name(app) == Some(pool.verify_hostname)
    } else {
        pool.verify_hostname.len() == 0
    }
}

impl<L> Model<L> {
    /// What holds of a proxy at all times.
    pub open spec fn valid(self) -> bool {
        &&& sound(self.apps)
        &&& self.phase.valid()
        &&& self.routes == routes_to(self.apps, self.pools)
        &&& forall|name: Seq<char>| #[trigger]
            self.upstreams.contains_key(name) <==> name_taken(
                self.apps,
                self.apps.len() as int,
                name,
            )
        &&& forall|name: Seq<char>| #[trigger]
            self.upstreams.contains_key(name) ==> self.upstreams[name].no_duplicates()
        &&& forall|id: PoolId| #[trigger]
            self.pools.contains_key(id) <==> self.upstreams.contains_key(id.app) && group(
                self.upstreams[id.app],
                id.transport,
            ).len() > 0
        &&& forall|id: PoolId| #[trigger]
            self.pools.contains_key(id) ==> find_app(self.apps, id.app, 0) is Some && pool_fits(
                find_app(self.apps, id.app, 0)->0,
                self.upstreams[id.app],
                id.transport,
                self.pools[id],
            )
    }
}

/// What is planned: one pool for each transport that has upstreams, and no two for the same.
pub proof fn lemma_plans(app: App, upstreams: Seq<Upstream>, plans: Seq<Plan>, t: TransportKind)
    requires
        pools_planned(app, upstreams) == Ok::<Seq<Plan>, super::Rejection>(plans),
    ensures
        plan_for(plans, t, plans.len() as int) matches Some(i) ==> 0 <= i < plans.len()
            && plans[i].transport == t && pool_planned(app, upstreams, t) == Ok::<
            Option<Plan>,
            super::Rejection,
        >(Some(plans[i])),
        plan_for(plans, t, plans.len() as int) is None ==> pool_planned(app, upstreams, t) == Ok::<
            Option<Plan>,
            super::Rejection,
        >(None),
        forall|i: int|
            0 <= i < plans.len() ==> plan_for(
                plans,
                (#[trigger] plans[i]).transport,
                plans.len() as int,
            ) == Some(i),
{
    reveal_with_fuel(plans_upto, 4);
    reveal_with_fuel(plan_for, 4);
    assert(transports()[0] == TransportKind::Http1);
    assert(transports()[1] == TransportKind::Http2);
    assert(transports()[2] == TransportKind::Ws);
    let a = pool_planned(app, upstreams, TransportKind::Http1)->Ok_0;
    let b = pool_planned(app, upstreams, TransportKind::Http2)->Ok_0;
    let c = pool_planned(app, upstreams, TransportKind::Ws)->Ok_0;
    let p1 = plans_upto(app, upstreams, 1)->Ok_0;
    let p2 = plans_upto(app, upstreams, 2)->Ok_0;
    assert(p1.len() == (if a is Some { 1int } else { 0int }));
    assert(p2.len() == p1.len() + (if b is Some { 1int } else { 0int }));
    assert(plans.len() == p2.len() + (if c is Some { 1int } else { 0int }));
}

/// Where each pool can be planned, all can.
proof fn lemma_planned(app: App, upstreams: Seq<Upstream>)
    requires
        forall|t: TransportKind| (#[trigger] pool_planned(app, upstreams, t)) is Ok,
    ensures
        pools_planned(app, upstreams) is Ok,
{
    reveal_with_fuel(plans_upto, 4);
    assert(pool_planned(app, upstreams, transports()[0]) is Ok);
    assert(pool_planned(app, upstreams, transports()[1]) is Ok);
    assert(pool_planned(app, upstreams, transports()[2]) is Ok);
}

proof fn lemma_find_app(apps: Seq<App>, name: Seq<char>, i: int)
    requires
        0 <= i <= apps.len(),
    ensures
        find_app(apps, name, i) matches Some(app) ==> app.name == name && apps.contains(app),
        find_app(apps, name, i) is None ==> forall|j: int|
            i <= j < apps.len() ==> (#[trigger] apps[j]).name != name,
    decreases apps.len() - i,
{
    if i < apps.len() && apps[i].name != name {
        lemma_find_app(apps, name, i + 1);
    }
}

/// An application is found exactly when its name is taken.
pub proof fn lemma_found(apps: Seq<App>, name: Seq<char>)
    ensures
        find_app(apps, name, 0) is Some <==> name_taken(apps, apps.len() as int, name),
        find_app(apps, name, 0) matches Some(app) ==> app.name == name && apps.contains(app),
{
    lemma_find_app(apps, name, 0);
    if find_app(apps, name, 0) is Some {
        let app = find_app(apps, name, 0)->0;
        let j = choose|j: int| 0 <= j < apps.len() && apps[j] == app;
        assert(apps[j].name == name);
    }
}

/// A proxy that was just made is valid.
pub proof fn law_new_proxies_are_valid<L>(apps: Seq<App>)
    requires
        sound(apps),
    ensures
        Model::<L>::initial(apps).valid(),
{
    let m = Model::<L>::initial(apps);
    assert forall|id: PoolId| #[trigger]
        m.pools.contains_key(id) <==> m.upstreams.contains_key(id.app) && group(
            m.upstreams[id.app],
            id.transport,
        ).len() > 0 by {
        if m.upstreams.contains_key(id.app) {
            reveal(Seq::filter);
            assert(group(m.upstreams[id.app], id.transport) =~= Seq::<Upstream>::empty());
        }
    }
}

/// Whether an update is what adding or removing some upstream comes to.
pub open spec fn update_asked<L>(m: Model<L>, update: Update) -> bool {
    exists|upstream: Upstream|
        #![trigger m.adding(update.app, upstream)]
        #![trigger m.removing(update.app, upstream)]
        m.adding(update.app, upstream) == Ok::<Update, super::Rejection>(update) || m.removing(
            update.app,
            upstream,
        ) == Ok::<Update, super::Rejection>(update)
}

proof fn lemma_pushed_distinct(all: Seq<Upstream>, more: Upstream)
    requires
        all.no_duplicates(),
        !all.contains(more),
    ensures
        all.push(more).no_duplicates(),
{
    let longer = all.push(more);
    assert forall|a: int, b: int|
        0 <= a < longer.len() && 0 <= b < longer.len() && a != b implies longer[a] != longer[b] by {
        if a < all.len() {
            assert(all.contains(all[a]));
        }
        if b < all.len() {
            assert(all.contains(all[b]));
        }
    }
}

proof fn lemma_removed_distinct(all: Seq<Upstream>, gone: Upstream)
    requires
        all.no_duplicates(),
        all.contains(gone),
    ensures
        all.remove_value(gone).no_duplicates(),
{
    all.index_of_first_ensures(gone);
    let at = all.index_of_first(gone)->0;
    let rest = all.remove_value(gone);
    assert(rest == all.remove(at));
    assert forall|a: int, b: int|
        0 <= a < rest.len() && 0 <= b < rest.len() && a != b implies rest[a] != rest[b] by {
        let x = if a < at { a } else { a + 1 };
        let y = if b < at { b } else { b + 1 };
        assert(rest[a] == all[x]);
        assert(rest[b] == all[y]);
    }
}

/// What an update that was asked for holds.
#[verifier::spinoff_prover]
pub proof fn lemma_asked<L>(m: Model<L>, update: Update) -> (app: App)
    requires
        m.valid(),
        update_asked(m, update),
    ensures
        find_app(m.apps, update.app, 0) == Some(app),
        app.name == update.app,
        m.upstreams.contains_key(update.app),
        pools_planned(app, update.upstreams) == Ok::<Seq<Plan>, super::Rejection>(update.pools),
        update.upstreams.no_duplicates(),
{
    let upstream = choose|upstream: Upstream|
        #![trigger m.adding(update.app, upstream)]
        #![trigger m.removing(update.app, upstream)]
        m.adding(update.app, upstream) == Ok::<Update, super::Rejection>(update) || m.removing(
            update.app,
            upstream,
        ) == Ok::<Update, super::Rejection>(update);
    let app = find_app(m.apps, update.app, 0)->0;
    let current = m.upstreams[update.app];
    lemma_found(m.apps, update.app);
    if m.adding(update.app, upstream) == Ok::<Update, super::Rejection>(update) {
        assert(update.upstreams == current.push(upstream));
        lemma_pushed_distinct(current, upstream);
    } else {
        assert(update.upstreams == current.remove_value(upstream));
        lemma_removed_distinct(current, upstream);
    }
    app
}

/// A proxy stays valid when an upstream is added or removed.
pub proof fn law_updates_keep_proxies_valid<L>(
    m: Model<L>,
    update: Update,
    built: Seq<BuiltPool<L>>,
)
    requires
        m.valid(),
        update_asked(m, update),
        built.len() == update.pools.len(),
    ensures
        m.updated(update, built).valid(),
{
    let app = lemma_asked(m, update);
    let after = m.updated(update, built);
    assert forall|id: PoolId| #[trigger]
        after.pools.contains_key(id) <==> after.upstreams.contains_key(id.app) && group(
            after.upstreams[id.app],
            id.transport,
        ).len() > 0 by {
        if id.app == update.app {
            lemma_plans(app, update.upstreams, update.pools, id.transport);
        } else {
            assert(m.pools.contains_key(id) == after.pools.contains_key(id));
        }
    }
    assert forall|id: PoolId| #[trigger] after.pools.contains_key(id) implies find_app(
        after.apps,
        id.app,
        0,
    ) is Some && pool_fits(
        find_app(after.apps, id.app, 0)->0,
        after.upstreams[id.app],
        id.transport,
        after.pools[id],
    ) by {
        if id.app == update.app {
            lemma_plans(app, update.upstreams, update.pools, id.transport);
        } else {
            assert(m.pools.contains_key(id));
        }
    }
    assert forall|name: Seq<char>| #[trigger] after.upstreams.contains_key(name) <==> name_taken(
        after.apps,
        after.apps.len() as int,
        name,
    ) by {
        assert(m.upstreams.contains_key(name) <==> name_taken(
            m.apps,
            m.apps.len() as int,
            name,
        ));
    }
    assert forall|name: Seq<char>| #[trigger]
        after.upstreams.contains_key(name) implies after.upstreams[name].no_duplicates() by {
        if name != update.app {
            assert(m.upstreams.contains_key(name));
        }
    }
}

/// A call about an application that there is not is rejected, and any other is not rejected for
/// that.
pub proof fn law_unknown_applications_are_rejected<L>(
    m: Model<L>,
    name: Seq<char>,
    upstream: Upstream,
)
    requires
        m.valid(),
    ensures
        m.adding(name, upstream) == Err::<Update, super::Rejection>(unknown_application(name))
            <==> !name_taken(m.apps, m.apps.len() as int, name),
        m.removing(name, upstream) == Err::<Update, super::Rejection>(unknown_application(name))
            <==> !name_taken(m.apps, m.apps.len() as int, name),
{
    lemma_found(m.apps, name);
    assert(m.upstreams.contains_key(name) <==> name_taken(m.apps, m.apps.len() as int, name));
    if name_taken(m.apps, m.apps.len() as int, name) {
        lemma_codes_differ();
        let (app, current) = m.application(name)->0;
        lemma_planning_rejections(app, current.push(upstream));
        lemma_planning_rejections(app, current.remove_value(upstream));
    }
}

proof fn lemma_codes_differ()
    ensures
        codes::UNKNOWN_APPLICATION@ != codes::UPSTREAM_ALREADY_EXISTS@,
        codes::UNKNOWN_APPLICATION@ != codes::UPSTREAM_NOT_FOUND@,
        codes::UNKNOWN_APPLICATION@ != codes::INVALID_APPLICATION_OPTIONS@,
        codes::UNKNOWN_APPLICATION@ != codes::INVALID_PROXY_OPTIONS@,
        codes::UPSTREAM_ALREADY_EXISTS@ != codes::INVALID_APPLICATION_OPTIONS@,
        codes::UPSTREAM_ALREADY_EXISTS@ != codes::INVALID_PROXY_OPTIONS@,
        codes::UPSTREAM_NOT_FOUND@ != codes::INVALID_APPLICATION_OPTIONS@,
        codes::UPSTREAM_NOT_FOUND@ != codes::INVALID_PROXY_OPTIONS@,
{
    reveal_strlit("UnknownApplication");
    reveal_strlit("UpstreamAlreadyExists");
    reveal_strlit("UpstreamNotFound");
    reveal_strlit("InvalidApplicationOptions");
    reveal_strlit("InvalidProxyOptions");
    assert(codes::UNKNOWN_APPLICATION@[1] == 'n');
    assert(codes::UPSTREAM_ALREADY_EXISTS@[1] == 'p');
    assert(codes::UPSTREAM_NOT_FOUND@[1] == 'p');
    assert(codes::INVALID_APPLICATION_OPTIONS@[0] == 'I');
    assert(codes::INVALID_PROXY_OPTIONS@[0] == 'I');
    assert(codes::UPSTREAM_ALREADY_EXISTS@[0] == 'U');
    assert(codes::UPSTREAM_NOT_FOUND@[0] == 'U');
    assert(codes::UNKNOWN_APPLICATION@[0] == 'U');
}

proof fn lemma_planning_rejections(app: App, upstreams: Seq<Upstream>)
    ensures
        pools_planned(app, upstreams) matches Err(e) ==> e == mixing_rejected() || e
            == name_required(),
{
    reveal_with_fuel(plans_upto, 4);
}

/// Adding an upstream that is there, and removing one that is not, is rejected, and nothing else
/// is rejected for that.
pub proof fn law_upstreams_are_added_and_removed_once<L>(
    m: Model<L>,
    name: Seq<char>,
    upstream: Upstream,
)
    requires
        m.valid(),
        name_taken(m.apps, m.apps.len() as int, name),
    ensures
        (m.adding(name, upstream) matches Err(e) && e.code == codes::UPSTREAM_ALREADY_EXISTS@)
            <==> m.upstreams[name].contains(upstream),
        (m.removing(name, upstream) matches Err(e) && e.code == codes::UPSTREAM_NOT_FOUND@)
            <==> !m.upstreams[name].contains(upstream),
{
    lemma_found(m.apps, name);
    assert(m.upstreams.contains_key(name));
    lemma_codes_differ();
    let (app, current) = m.application(name)->0;
    lemma_planning_rejections(app, current.push(upstream));
    lemma_planning_rejections(app, current.remove_value(upstream));
}

/// The upstreams that a valid proxy has can be planned.
proof fn lemma_current_planned<L>(m: Model<L>, app: App)
    requires
        m.valid(),
        find_app(m.apps, app.name, 0) == Some(app),
    ensures
        m.upstreams.contains_key(app.name),
        pools_planned(app, m.upstreams[app.name]) is Ok,
{
    lemma_found(m.apps, app.name);
    assert(m.upstreams.contains_key(app.name));
    let upstreams = m.upstreams[app.name];
    assert forall|t: TransportKind| (#[trigger] pool_planned(app, upstreams, t)) is Ok by {
        let id = PoolId { app: app.name, transport: t };
        assert(m.pools.contains_key(id) <==> group(upstreams, t).len() > 0);
    }
    lemma_planned(app, upstreams);
}

/// Removing an upstream undoes adding it: it is not rejected, and the upstreams and the pools of
/// every application are those there were before.
pub proof fn law_removing_undoes_adding<L>(
    m: Model<L>,
    name: Seq<char>,
    upstream: Upstream,
    built: Seq<BuiltPool<L>>,
    rebuilt: Seq<BuiltPool<L>>,
)
    requires
        m.valid(),
        m.adding(name, upstream) is Ok,
        built.len() == m.adding(name, upstream)->Ok_0.pools.len(),
    ensures
        ({
            let added = m.updated(m.adding(name, upstream)->Ok_0, built);
            let removal = added.removing(name, upstream);
            &&& removal is Ok
            &&& rebuilt.len() == removal->Ok_0.pools.len() ==> {
                let back = added.updated(removal->Ok_0, rebuilt);
                &&& back.upstreams == m.upstreams
                &&& back.pools.dom() == m.pools.dom()
                &&& back.apps == m.apps
                &&& back.phase == m.phase
            }
        }),
{
    let update = m.adding(name, upstream)->Ok_0;
    lemma_found(m.apps, name);
    let app = find_app(m.apps, name, 0)->0;
    assert(m.adding(update.app, upstream) == Ok::<Update, super::Rejection>(update));
    assert(update_asked(m, update));
    law_updates_keep_proxies_valid(m, update, built);
    let added = m.updated(update, built);
    let current = m.upstreams[name];
    let more = current.push(upstream);
    assert(added.upstreams[name] == more);
    assert(more[current.len() as int] == upstream);
    more.index_of_first_ensures(upstream);
    let at = more.index_of_first(upstream)->0;
    assert(at == current.len()) by {
        if at < current.len() {
            assert(current[at] == upstream);
        }
    }
    assert(more.remove_value(upstream) =~= current);
    lemma_current_planned(m, app);
    let removal = added.removing(name, upstream);
    assert(removal is Ok);
    if rebuilt.len() == removal->Ok_0.pools.len() {
        let back = added.updated(removal->Ok_0, rebuilt);
        assert(added.removing(removal->Ok_0.app, upstream) == removal);
        assert(update_asked(added, removal->Ok_0));
        law_updates_keep_proxies_valid(added, removal->Ok_0, rebuilt);
        assert(back.upstreams =~= m.upstreams);
        assert forall|id: PoolId| back.pools.contains_key(id) <==> #[trigger] m.pools.contains_key(
            id,
        ) by {
            assert(back.pools.contains_key(id) <==> back.upstreams.contains_key(id.app) && group(
                back.upstreams[id.app],
                id.transport,
            ).len() > 0);
        }
        assert(back.pools.dom() =~= m.pools.dom());
    }
}

/// A change of one application's upstreams leaves those of the others, their pools and the load
/// balancers in them as they are.
pub proof fn law_updates_are_of_one_application<L>(
    m: Model<L>,
    update: Update,
    built: Seq<BuiltPool<L>>,
    other: PoolId,
)
    requires
        other.app != update.app,
    ensures
        ({
            let after = m.updated(update, built);
            &&& after.upstreams.contains_key(other.app) == m.upstreams.contains_key(other.app)
            &&& m.upstreams.contains_key(other.app) ==> after.upstreams[other.app]
                == m.upstreams[other.app]
            &&& after.pools.contains_key(other) == m.pools.contains_key(other)
            &&& m.pools.contains_key(other) ==> after.pools[other] == m.pools[other]
        }),
{
}

/// The load balancers that are handed out to be checked are those that the routes lead to: one for
/// each pool of the application.
pub proof fn law_health_checks_are_of_the_routed_balancers<L>(
    m: Model<L>,
    update: Update,
    built: Seq<BuiltPool<L>>,
    i: int,
)
    requires
        m.valid(),
        update_asked(m, update),
        built.len() == update.pools.len(),
        0 <= i < built.len(),
    ensures
        ({
            let after = m.updated(update, built);
            let transport = update.pools[i].transport;
            let pools = after.routes.apps[update.app];
            &&& after.routes.apps.contains_key(update.app)
            &&& (match transport {
                TransportKind::Http1 => pools.http1,
                TransportKind::Http2 => pools.http2,
                TransportKind::Ws => pools.ws,
            }) == Some(pool_made(update.pools[i], built[i]))
        }),
{
    let app = lemma_asked(m, update);
    let after = m.updated(update, built);
    let transport = update.pools[i].transport;
    lemma_plans(app, update.upstreams, update.pools, transport);
    lemma_found(m.apps, update.app);
    let j = choose|j: int| 0 <= j < m.apps.len() && m.apps[j] == app;
    lemma_routes(after.apps, after.pools, after.apps.len() as int, j);
}

/// What the routes hold of an application that is one of the first `n`.
pub proof fn lemma_routes<L>(apps: Seq<App>, pools: Map<PoolId, Pool<L>>, n: int, i: int)
    requires
        sound(apps),
        0 <= i < n <= apps.len(),
    ensures
        ({
            let routes = routes_upto(apps, pools, n);
            &&& routes.apps.contains_key(apps[i].name)
            &&& routes.apps[apps[i].name] == pools_of(pools, apps[i].name)
            &&& match apps[i].route {
                Route::Subdomain(name) => routes.subdomains.contains_key(text::lowered(name))
                    && routes.subdomains[text::lowered(name)] == apps[i].name,
                Route::Path(name) => routes.paths.contains_key(name) && routes.paths[name]
                    == apps[i].name,
                Route::Default => routes.default_app == Some(apps[i].name),
            }
        }),
    decreases n,
{
    if i < n - 1 {
        lemma_routes(apps, pools, n - 1, i);
        assert(apart(apps[i], apps[n - 1]));
    }
}

/// Every application is reached: by its subdomain; by its path segment, unless the host is another
/// application's; and as the default, unless the host or the path is another's.
pub proof fn law_every_application_is_reached<L>(
    m: Model<L>,
    i: int,
    host: Option<Seq<char>>,
    segment: Option<Seq<char>>,
)
    requires
        m.valid(),
        0 <= i < m.apps.len(),
    ensures
        ({
            let app = m.apps[i];
            let routes = m.routes;
            let by_host = host is Some && routes.subdomains.contains_key(host->0);
            let by_path = segment is Some && routes.paths.contains_key(segment->0);
            &&& routes.apps.contains_key(app.name) && routes.apps[app.name] == pools_of(
                m.pools,
                app.name,
            )
            &&& match app.route {
                Route::Subdomain(name) => host == Some(text::lowered(name)) ==> routes.destination(
                    host,
                    segment,
                ) == Some(Destination { app: app.name, rewrite: None }),
                Route::Path(name) => segment == Some(name) && !by_host ==> routes.destination(
                    host,
                    segment,
                ) == Some(Destination { app: app.name, rewrite: segment }),
                Route::Default => !by_host && !by_path ==> routes.destination(host, segment)
                    == Some(Destination { app: app.name, rewrite: None }),
            }
        }),
{
    lemma_routes(m.apps, m.pools, m.apps.len() as int, i);
}

/// Whether an application is where a request with this host and segment may go.
pub open spec fn answers(
    app: App,
    to: Destination,
    host: Option<Seq<char>>,
    segment: Option<Seq<char>>,
) -> bool {
    &&& app.name == to.app
    &&& match app.route {
        Route::Subdomain(name) => host == Some(text::lowered(name)) && to.rewrite is None,
        Route::Path(name) => segment == Some(name) && to.rewrite == segment,
        Route::Default => to.rewrite is None,
    }
}

pub proof fn lemma_routed<L>(apps: Seq<App>, pools: Map<PoolId, Pool<L>>, n: int)
    requires
        0 <= n <= apps.len(),
    ensures
        ({
            let routes = routes_upto(apps, pools, n);
            &&& forall|key: Seq<char>| #[trigger]
                routes.subdomains.contains_key(key) ==> exists|i: int|
                    0 <= i < n && (#[trigger] apps[i]).name == routes.subdomains[key]
                        && apps[i].route is Subdomain && text::lowered(
                        apps[i].route->Subdomain_0,
                    ) == key
            &&& forall|key: Seq<char>| #[trigger]
                routes.paths.contains_key(key) ==> exists|i: int|
                    0 <= i < n && (#[trigger] apps[i]).name == routes.paths[key] && apps[i].route
                        == Route::Path(key)
            &&& routes.default_app matches Some(name) ==> exists|i: int|
                0 <= i < n && (#[trigger] apps[i]).name == name && apps[i].route is Default
        }),
    decreases n,
{
    if n > 0 {
        lemma_routed(apps, pools, n - 1);
        let before = routes_upto(apps, pools, n - 1);
        let routes = routes_upto(apps, pools, n);
        let last = apps[n - 1];
        assert forall|key: Seq<char>| #[trigger]
            routes.subdomains.contains_key(key) implies exists|i: int|
            0 <= i < n && (#[trigger] apps[i]).name == routes.subdomains[key]
                && apps[i].route is Subdomain && text::lowered(apps[i].route->Subdomain_0)
                == key by {
            if !(last.route is Subdomain && text::lowered(last.route->Subdomain_0) == key) {
                assert(before.subdomains.contains_key(key));
            }
        }
        assert forall|key: Seq<char>| #[trigger] routes.paths.contains_key(key) implies exists|
            i: int,
        |
            0 <= i < n && (#[trigger] apps[i]).name == routes.paths[key] && apps[i].route
                == Route::Path(key) by {
            if last.route != Route::Path(key) {
                assert(before.paths.contains_key(key));
            }
        }
    }
}

/// A request goes only to an application that it matches.
pub proof fn law_requests_reach_only_what_they_match<L>(
    m: Model<L>,
    host: Option<Seq<char>>,
    segment: Option<Seq<char>>,
)
    requires
        m.valid(),
        m.routes.destination(host, segment) is Some,
    ensures
        exists|i: int|
            0 <= i < m.apps.len() && answers(
                #[trigger] m.apps[i],
                m.routes.destination(host, segment)->0,
                host,
                segment,
            ),
{
    lemma_routed(m.apps, m.pools, m.apps.len() as int);
    let to = m.routes.destination(host, segment)->0;
    if host is Some && m.routes.subdomains.contains_key(host->0) {
        let i = choose|i: int|
            0 <= i < m.apps.len() && (#[trigger] m.apps[i]).name == m.routes.subdomains[host->0]
                && m.apps[i].route is Subdomain && text::lowered(m.apps[i].route->Subdomain_0)
                == host->0;
        assert(answers(m.apps[i], to, host, segment));
    } else if segment is Some && m.routes.paths.contains_key(segment->0) {
        let i = choose|i: int|
            0 <= i < m.apps.len() && (#[trigger] m.apps[i]).name == m.routes.paths[segment->0]
                && m.apps[i].route == Route::Path(segment->0);
        assert(answers(m.apps[i], to, host, segment));
    } else {
        let i = choose|i: int|
            0 <= i < m.apps.len() && (#[trigger] m.apps[i]).name == m.routes.default_app->0
                && m.apps[i].route is Default;
        assert(answers(m.apps[i], to, host, segment));
    }
}

/// A secure pool verifies the name that its application's options give: its subdomain, or for path
/// and default routing the name of its own that it must have. An insecure pool verifies none.
pub proof fn law_verified_names_are_the_applications<L>(m: Model<L>, i: int, t: TransportKind)
    requires
        m.valid(),
        0 <= i < m.apps.len(),
        pool_at(m.pools, m.apps[i].name, t) is Some,
    ensures
        ({
            let app = m.apps[i];
            let pool = pool_at(m.pools, app.name, t)->0;
            &&& pool.secure ==> match app.route {
                Route::Subdomain(name) => pool.verify_hostname == name,
                Route::Path(_) | Route::Default => app.sni == Some(pool.verify_hostname),
            }
            &&& !pool.secure ==> pool.verify_hostname.len() == 0
        }),
{
    let app = m.apps[i];
    let id = PoolId { app: app.name, transport: t };
    assert(m.pools.contains_key(id));
    lemma_found(m.apps, app.name);
    let found = find_app(m.apps, app.name, 0)->0;
    let j = choose|j: int| 0 <= j < m.apps.len() && m.apps[j] == found;
    assert(j == i) by {
        if j < i {
            assert(apart(m.apps[j], m.apps[i]));
        }
        if i < j {
            assert(apart(m.apps[i], m.apps[j]));
        }
    }
}

/// Every pool's health is checked under a name of its own, and none under the listener's.
pub proof fn law_service_names_differ(a: PoolId, b: PoolId)
    ensures
        service_name(a) == service_name(b) ==> a == b,
        service_name(a) != "main_http"@,
{
    reveal_strlit("lb:");
    reveal_strlit(":http");
    reveal_strlit(":http2");
    reveal_strlit(":ws");
    reveal_strlit("main_http");
    let x = service_name(a);
    let y = service_name(b);
    assert(x[0] == 'l');
    if x == y {
        assert(a.transport == b.transport) by {
            assert(x.last() == (match a.transport {
                TransportKind::Http1 => 'p',
                TransportKind::Http2 => '2',
                TransportKind::Ws => 's',
            }));
            assert(y.last() == (match b.transport {
                TransportKind::Http1 => 'p',
                TransportKind::Http2 => '2',
                TransportKind::Ws => 's',
            }));
        }
        assert(a.app.len() == b.app.len());
        assert(x.subrange(3, 3 + a.app.len() as int) =~= a.app);
        assert(y.subrange(3, 3 + b.app.len() as int) =~= b.app);
    }
}

/// Whether the health checks that run, each under its name, are those of the pools: one for each,
/// of its load balancer, and no other.
pub open spec fn checks_fit<L>(checks: Map<Seq<char>, L>, pools: Map<PoolId, Pool<L>>) -> bool {
    &&& forall|id: PoolId| #[trigger]
        pools.contains_key(id) ==> checks.contains_key(service_name(id)) && checks[service_name(id)]
            == pools[id].lb
    &&& forall|name: Seq<char>| #[trigger]
        checks.contains_key(name) ==> exists|id: PoolId| #[trigger]
            pools.contains_key(id) && service_name(id) == name
}

/// The health checks that run after the first `n` of `tasks` were put in place of those with the
/// same name.
pub open spec fn checks_put<L>(
    checks: Map<Seq<char>, L>,
    tasks: Seq<(Seq<char>, L)>,
    n: int,
) -> Map<Seq<char>, L>
    decreases n,
{
    if n <= 0 {
        checks
    } else {
        checks_put(checks, tasks, n - 1).insert(tasks[n - 1].0, tasks[n - 1].1)
    }
}

/// The health checks that run after `tasks` were put in place of those with the same name.
pub open spec fn checks_begun<L>(
    checks: Map<Seq<char>, L>,
    tasks: Seq<(String, Arc<L>)>,
) -> Map<Seq<char>, L> {
    checks_put(checks, task_views(tasks), tasks.len() as int)
}

/// The health checks that run after an update, which puts and ends them while the proxy runs.
pub open spec fn checks_updated<L>(
    checks: Map<Seq<char>, L>,
    m: Model<L>,
    update: Update,
    built: Seq<BuiltPool<L>>,
) -> Map<Seq<char>, L> {
    if m.phase.state is Running {
        checks_put(checks, services_begun(update, built), built.len() as int).remove_keys(
            services_ended(m.pools, update.app, update.pools, 3).to_set(),
        )
    } else {
        checks
    }
}

proof fn lemma_checks_put<L>(checks: Map<Seq<char>, L>, tasks: Seq<(Seq<char>, L)>, n: int)
    requires
        0 <= n <= tasks.len(),
        forall|i: int, j: int|
            0 <= i < j < tasks.len() ==> (#[trigger] tasks[i]).0 != (#[trigger] tasks[j]).0,
    ensures
        forall|i: int|
            0 <= i < n ==> checks_put(checks, tasks, n).contains_key((#[trigger] tasks[i]).0)
                && checks_put(checks, tasks, n)[tasks[i].0] == tasks[i].1,
        forall|name: Seq<char>|
            (forall|i: int| 0 <= i < n ==> (#[trigger] tasks[i]).0 != name) ==> (
            #[trigger] checks_put(checks, tasks, n).contains_key(name)) == checks.contains_key(name)
                && checks_put(checks, tasks, n)[name] == checks[name],
    decreases n,
{
    if n > 0 {
        lemma_checks_put(checks, tasks, n - 1);
        let before = checks_put(checks, tasks, n - 1);
        let after = checks_put(checks, tasks, n);
        assert forall|name: Seq<char>|
            (forall|i: int| 0 <= i < n ==> (#[trigger] tasks[i]).0 != name) implies (
        #[trigger] after.contains_key(name)) == checks.contains_key(name) && after[name]
            == checks[name] by {
            assert(tasks[n - 1].0 != name);
            assert(before.contains_key(name) == checks.contains_key(name));
        }
    }
}

/// The health checks of the pools that are there, put where none ran, fit the pools.
proof fn lemma_begun_checks_fit<L>(tasks: Seq<(String, Arc<L>)>, pools: Map<PoolId, Pool<L>>)
    requires
        tasks_fit(tasks, pools),
    ensures
        checks_fit(checks_begun(Map::empty(), tasks), pools),
{
    let ids = choose|ids: Seq<PoolId>|
        {
            &&& ids.no_duplicates()
            &&& ids.to_set() == pools.dom()
            &&& tasks.len() == ids.len()
            &&& forall|i: int|
                0 <= i < tasks.len() ==> (#[trigger] tasks[i]).0@ == service_name(ids[i])
                    && *tasks[i].1 == pools[ids[i]].lb
        };
    let views = task_views(tasks);
    let n = tasks.len() as int;
    let checks = checks_begun(Map::empty(), tasks);
    assert forall|i: int| 0 <= i < n implies (#[trigger] views[i]).0 == service_name(ids[i])
        && views[i].1 == pools[ids[i]].lb by {
        assert(tasks[i].0@ == service_name(ids[i]));
    }
    assert forall|i: int, j: int| 0 <= i < j < n implies (#[trigger] views[i]).0 != (
    #[trigger] views[j]).0 by {
        law_service_names_differ(ids[i], ids[j]);
    }
    lemma_checks_put(Map::empty(), views, n);
    assert forall|id: PoolId| #[trigger] pools.contains_key(id) implies checks.contains_key(
        service_name(id),
    ) && checks[service_name(id)] == pools[id].lb by {
        assert(ids.to_set().contains(id));
        let i = choose|i: int| 0 <= i < ids.len() && ids[i] == id;
        assert(views[i].0 == service_name(id));
    }
    assert forall|name: Seq<char>| #[trigger] checks.contains_key(name) implies exists|id: PoolId|
        #[trigger] pools.contains_key(id) && service_name(id) == name by {
        let i = choose|i: int| 0 <= i < n && (#[trigger] views[i]).0 == name;
        assert(exists|i: int| 0 <= i < n && (#[trigger] views[i]).0 == name);
        assert(ids.to_set().contains(ids[i]));
        assert(pools.contains_key(ids[i]));
    }
}

/// Which services an update ends.
pub proof fn lemma_services_ended<L>(
    pools: Map<PoolId, Pool<L>>,
    app: Seq<char>,
    plans: Seq<Plan>,
    id: PoolId,
)
    ensures
        services_ended(pools, app, plans, 3).contains(service_name(id)) <==> id.app == app
            && plan_for(plans, id.transport, plans.len() as int) is None && pools.contains_key(id),
{
    reveal_with_fuel(services_ended, 4);
    let ended = services_ended(pools, app, plans, 3);
    let s1 = services_ended(pools, app, plans, 1);
    let s2 = services_ended(pools, app, plans, 2);
    let a = PoolId { app, transport: TransportKind::Http1 };
    let b = PoolId { app, transport: TransportKind::Http2 };
    let c = PoolId { app, transport: TransportKind::Ws };
    assert(transports()[0] == a.transport);
    assert(transports()[1] == b.transport);
    assert(transports()[2] == c.transport);
    law_service_names_differ(a, id);
    law_service_names_differ(b, id);
    law_service_names_differ(c, id);
    let name = service_name(id);
    lemma_push_contains(Seq::empty(), service_name(a), name);
    lemma_push_contains(s1, service_name(b), name);
    lemma_push_contains(s2, service_name(c), name);
}

proof fn lemma_push_contains(s: Seq<Seq<char>>, last: Seq<char>, x: Seq<char>)
    ensures
        s.push(last).contains(x) <==> s.contains(x) || x == last,
{
    let longer = s.push(last);
    assert(longer[s.len() as int] == last);
    if s.contains(x) {
        let i = choose|i: int| 0 <= i < s.len() && s[i] == x;
        assert(longer[i] == x);
    }
}

/// Health checks that fit the pools fit them after an update too.
proof fn lemma_updated_checks_fit<L>(
    m: Model<L>,
    checks: Map<Seq<char>, L>,
    update: Update,
    built: Seq<BuiltPool<L>>,
)
    requires
        m.valid(),
        m.phase.state is Running,
        update_asked(m, update),
        built.len() == update.pools.len(),
        checks_fit(checks, m.pools),
    ensures
        checks_fit(checks_updated(checks, m, update, built), m.updated(update, built).pools),
{
    let app = lemma_asked(m, update);
    let plans = update.pools;
    let count = plans.len() as int;
    let pools = m.updated(update, built).pools;
    let tasks = services_begun(update, built);
    let put = checks_put(checks, tasks, count);
    let ended = services_ended(m.pools, update.app, plans, 3);
    let after = checks_updated(checks, m, update, built);
    assert forall|i: int, j: int| 0 <= i < j < tasks.len() implies (#[trigger] tasks[i]).0 != (
    #[trigger] tasks[j]).0 by {
        lemma_plans(app, update.upstreams, plans, plans[i].transport);
        law_service_names_differ(
            PoolId { app: update.app, transport: plans[i].transport },
            PoolId { app: update.app, transport: plans[j].transport },
        );
    }
    lemma_checks_put(checks, tasks, count);
    assert forall|id: PoolId| #[trigger] pools.contains_key(id) implies after.contains_key(
        service_name(id),
    ) && after[service_name(id)] == pools[id].lb by {
        lemma_services_ended(m.pools, update.app, plans, id);
        assert(!ended.to_set().contains(service_name(id)));
        if id.app == update.app {
            lemma_plans(app, update.upstreams, plans, id.transport);
            let i = plan_for(plans, id.transport, count)->0;
            assert(id == PoolId { app: update.app, transport: plans[i].transport });
            assert(tasks[i].0 == service_name(id));
        } else {
            assert(m.pools.contains_key(id));
            assert forall|i: int| 0 <= i < count implies (#[trigger] tasks[i]).0 != service_name(
                id,
            ) by {
                law_service_names_differ(
                    PoolId { app: update.app, transport: plans[i].transport },
                    id,
                );
            }
            assert(put.contains_key(service_name(id)));
        }
    }
    assert forall|name: Seq<char>| #[trigger] after.contains_key(name) implies exists|id: PoolId|
        #[trigger] pools.contains_key(id) && service_name(id) == name by {
        assert(put.contains_key(name));
        assert(!ended.to_set().contains(name));
        if exists|i: int| 0 <= i < count && (#[trigger] tasks[i]).0 == name {
            let i = choose|i: int| 0 <= i < count && (#[trigger] tasks[i]).0 == name;
            lemma_plans(app, update.upstreams, plans, plans[i].transport);
            assert(pools.contains_key(
                PoolId { app: update.app, transport: plans[i].transport },
            ));
        } else {
            assert(checks.contains_key(name));
            let id = choose|id: PoolId| #[trigger]
                m.pools.contains_key(id) && service_name(id) == name;
            lemma_services_ended(m.pools, update.app, plans, id);
            assert(!ended.contains(name));
            assert(pools.contains_key(id));
        }
    }
}

/// A step in the life of a proxy and its health checks.
pub enum Step<L> {
    /// A caller asks for a start.
    Start,
    /// The listener could not be set up.
    StartFailed,
    /// These health checks were run, and the listener, which is bound to this address.
    StartFinished(Seq<(String, Arc<L>)>, BoundListenAddress),
    /// The services of a start that does not count were ended.
    StartCancelled,
    /// A caller asks for a stop.
    Stop,
    /// All services were ended.
    StopFinished,
    /// The pools of an application were replaced.
    Update(Update, Seq<BuiltPool<L>>),
}

/// A proxy and its health checks, each under its name.
#[verifier::ext_equal]
pub struct Service<L> {
    pub model: Model<L>,
    pub checks: Map<Seq<char>, L>,
}

impl<L> Service<L> {
    /// A proxy that was just made. None of its health checks runs.
    pub open spec fn initial(apps: Seq<App>) -> Service<L> {
        Service { model: Model::initial(apps), checks: Map::empty() }
    }

    /// When a step may come: the health checks that a start runs are those of the pools that are
    /// there, and it has an outcome that is owed; services are ended for a stop that has yet to
    /// end; and an update is one that was asked for.
    pub open spec fn allows(self, step: Step<L>) -> bool {
        match step {
            Step::Start | Step::StartFailed | Step::Stop => true,
            Step::StartFinished(tasks, _) => self.model.phase.start_awaited && tasks_fit(
                tasks,
                self.model.pools,
            ),
            Step::StartCancelled | Step::StopFinished => self.model.phase.stop_awaited,
            Step::Update(update, built) => update_asked(self.model, update) && built.len()
                == update.pools.len(),
        }
    }

    /// With another phase.
    pub open spec fn in_phase(self, phase: Phase) -> Service<L> {
        Service { model: Model { phase, ..self.model }, ..self }
    }

    /// After a step.
    pub open spec fn stepped(self, step: Step<L>) -> Service<L> {
        let phase = self.model.phase;
        match step {
            Step::Start => self.in_phase(phase.after_start()),
            Step::StartFailed => self.in_phase(phase.after_start_failed()),
            Step::StartFinished(tasks, address) => Service {
                checks: checks_begun(self.checks, tasks),
                ..self.in_phase(phase.after_start_finished(address))
            },
            Step::StartCancelled => Service {
                checks: Map::empty(),
                ..self.in_phase(phase.after_start_cancelled())
            },
            Step::Stop => self.in_phase(phase.after_stop()),
            Step::StopFinished => Service {
                checks: Map::empty(),
                ..self.in_phase(phase.after_stop_finished())
            },
            Step::Update(update, built) => Service {
                model: self.model.updated(update, built),
                checks: checks_updated(self.checks, self.model, update, built),
            },
        }
    }

    /// After the first `n` steps.
    pub open spec fn after_steps(self, steps: Seq<Step<L>>, n: int) -> Service<L>
        decreases n,
    {
        if n <= 0 {
            self
        } else {
            self.after_steps(steps, n - 1).stepped(steps[n - 1])
        }
    }

    /// Whether each of the steps may come when it does.
    pub open spec fn allows_all(self, steps: Seq<Step<L>>) -> bool {
        forall|i: int|
            #![trigger steps[i]]
            0 <= i < steps.len() ==> self.after_steps(steps, i).allows(steps[i])
    }

    /// What holds after every step: the health checks fit the pools while the proxy runs, and none
    /// runs where a start can begin or is under way.
    pub open spec fn checked(self) -> bool {
        let phase = self.model.phase;
        &&& self.model.valid()
        &&& phase.state is Running ==> checks_fit(self.checks, self.model.pools)
        &&& phase.state is Starting || (phase.state is Stopped && !phase.stop_awaited)
            ==> self.checks == Map::<Seq<char>, L>::empty()
    }
}

proof fn lemma_step_keeps_checks<L>(s: Service<L>, step: Step<L>)
    requires
        s.checked(),
        s.allows(step),
    ensures
        s.stepped(step).checked(),
{
    match step {
        Step::StartFinished(tasks, address) => {
            if s.model.phase.state is Starting {
                lemma_begun_checks_fit(tasks, s.model.pools);
            }
        },
        Step::Update(update, built) => {
            law_updates_keep_proxies_valid(s.model, update, built);
            if s.model.phase.state is Running {
                lemma_updated_checks_fit(s.model, s.checks, update, built);
            }
        },
        _ => {},
    }
}

/// Whenever a proxy runs, whatever happened before, the health checks that run are those of its
/// pools, one for each load balancer that the routes lead to and no other, where each start ran the
/// checks of the pools that were there when it finished. So a change of the pools while a start is
/// under way leaves none without its check.
pub proof fn law_checks_fit_while_running<L>(apps: Seq<App>, steps: Seq<Step<L>>, n: int)
    requires
        sound(apps),
        Service::<L>::initial(apps).allows_all(steps),
        0 <= n <= steps.len(),
    ensures
        ({
            let s = Service::<L>::initial(apps).after_steps(steps, n);
            &&& s.checked()
            &&& s.model.phase.state is Running ==> checks_fit(s.checks, s.model.pools)
        }),
    decreases n,
{
    if n <= 0 {
        law_new_proxies_are_valid::<L>(apps);
    } else {
        law_checks_fit_while_running(apps, steps, n - 1);
        let before = Service::<L>::initial(apps).after_steps(steps, n - 1);
        assert(before.allows(steps[n - 1]));
        lemma_step_keeps_checks(before, steps[n - 1]);
    }
}

/// A start or stop that is under way can always be waited for.
pub proof fn law_phases_stay_valid(p: Phase, address: BoundListenAddress)
    ensures
        Phase::initial().valid(),
        p.valid() ==> p.after_start().valid(),
        p.valid() ==> p.after_start_failed().valid(),
        p.valid() ==> p.after_start_finished(address).valid(),
        p.valid() ==> p.after_start_cancelled().valid(),
        p.valid() ==> p.after_stop().valid(),
        p.valid() ==> p.after_stop_finished().valid(),
{
}

/// A start begins only where the proxy is stopped and no stop has yet to end. While one is under
/// way, another call waits for the same outcome and changes nothing; while the proxy runs or a stop
/// is under way, it is refused.
pub proof fn law_one_start_at_a_time(p: Phase)
    requires
        p.valid(),
    ensures
        p.start() == Ok::<StartStep, Failure>(StartStep::Begin) <==> p.state is Stopped
            && !p.stop_awaited,
        p.start() == Ok::<StartStep, Failure>(StartStep::Wait) <==> p.state is Starting,
        p.start() is Err <==> p.state is Running || p.stop_awaited,
        p.start() matches Err(e) ==> e.code == codes::ALREADY_STARTED@,
        p.start() != Ok::<StartStep, Failure>(StartStep::Begin) ==> p.after_start() == p,
        p.start() == Ok::<StartStep, Failure>(StartStep::Begin) ==> p.after_start().state is Starting
            && !p.start_awaited,
        p.state is Starting ==> p.start_awaited,
{
}

/// A stop comes to an end from every phase, and stopping what is stopped does nothing more.
pub proof fn law_stops_come_to_an_end(p: Phase)
    requires
        p.valid(),
    ensures
        p.stop() is Ok,
        p.stop() == Ok::<StopStep, Failure>(StopStep::Done) <==> p.state is Stopped
            && !p.stop_awaited,
        p.stop() == Ok::<StopStep, Failure>(StopStep::Wait) <==> p.stop_awaited,
        p.stop() matches Ok(StopStep::Begin { start_under_way }) ==> start_under_way
            == p.start_awaited && p.after_stop().stop_awaited,
        p.state is Stopped ==> p.after_stop().state is Stopped && p.after_stop().after_stop()
            == p.after_stop(),
        p.state is Stopping ==> p.after_stop() == p,
        p.stop_awaited ==> p.after_stop_finished() == Phase::initial(),
        Phase::initial().stop() == Ok::<StopStep, Failure>(StopStep::Done),
        Phase::initial().start() == Ok::<StartStep, Failure>(StartStep::Begin),
{
}

/// A start that a stop got ahead of never makes the proxy run, and leaves the stop under way until
/// it has ended.
pub proof fn law_stops_cancel_starts(p: Phase, address: BoundListenAddress)
    requires
        p.valid(),
        p.state is Starting,
    ensures
        ({
            let stopping = p.after_stop();
            let finished = stopping.after_start_finished(address);
            let failed = stopping.after_start_failed();
            &&& stopping.state is Stopping
            &&& !stopping.start_counts()
            &&& finished.state is Stopping && finished.start() is Err
            &&& finished.after_start_cancelled().state is Stopped
            &&& finished.after_start_cancelled().start() is Err
            &&& finished.after_start_cancelled().stop() == Ok::<StopStep, Failure>(StopStep::Wait)
            &&& failed.state is Stopping && failed.start() is Err
            &&& finished.after_stop_finished() == Phase::initial()
            &&& finished.after_start_cancelled().after_stop_finished() == Phase::initial()
            &&& failed.after_stop_finished() == Phase::initial()
        }),
{
}

/// No step of an earlier start or stop ends a start: while one is under way or has succeeded, the
/// late end of an earlier stop, and the late end of the services of an earlier start, change
/// nothing. The one outcome that is owed while a start is under way is that start's own, since a
/// start begins only where none is owed; once it has succeeded, no failure changes that.
pub proof fn law_earlier_steps_do_not_end_a_start(p: Phase)
    requires
        p.valid(),
    ensures
        p.state is Starting || p.state is Running ==> p.after_start_cancelled() == p,
        p.state is Starting || p.state is Running ==> p.after_stop_finished() == p,
        p.state is Running ==> p.after_start_failed() == p,
        p.start() == Ok::<StartStep, Failure>(StartStep::Begin) ==> !p.start_awaited
            && !p.stop_awaited,
{
}

/// A start that is begun after a stop has ended runs, whether the start that the stop got ahead of
/// finished or failed, and though the services of that start are ended late or the stop reports
/// again.
pub proof fn law_starts_after_a_stop_run(
    p: Phase,
    earlier: BoundListenAddress,
    address: BoundListenAddress,
)
    requires
        p.valid(),
        p.state is Starting,
    ensures
        ({
            let ended = p.after_stop().after_start_finished(earlier).after_stop_finished();
            let again = ended.after_start();
            let running = again.after_start_finished(address);
            &&& ended == p.after_stop().after_start_failed().after_stop_finished()
            &&& ended.start() == Ok::<StartStep, Failure>(StartStep::Begin)
            &&& again.after_start_cancelled() == again
            &&& again.after_stop_finished() == again
            &&& again.start_counts()
            &&& running.state is Running
            &&& running.after_start_cancelled() == running
            &&& running.after_stop_finished() == running
        }),
{
}

/// A start that fails can be tried again.
pub proof fn law_failed_starts_can_be_tried_again(p: Phase)
    requires
        p.valid(),
        p.state is Starting,
    ensures
        p.after_start_failed() == Phase::initial(),
        p.after_start_failed().start() == Ok::<StartStep, Failure>(StartStep::Begin),
{
}

/// Callers see an address while the proxy runs, the one that its listener was bound to, and none
/// at any other time.
pub proof fn law_addresses_are_of_running_proxies(p: Phase, address: BoundListenAddress)
    ensures
        !(p.state is Running) ==> p.shown_address() is None,
        p.start_counts() ==> p.after_start_finished(address).shown_address() == Some(address),
        p.after_stop().shown_address() is None,
        p.stop_awaited ==> p.after_stop_finished().shown_address() is None,
{
}

/// Whether an error says that a start is not possible now.
pub open spec fn already(e: JsError, message: Seq<char>) -> bool {
    tells(e, ErrorClass::Error, "AlreadyStarted"@, message)
}

/// A start begins where the proxy is stopped and no stop has yet to end; it waits where one is under
/// way; and it is refused while the proxy runs or a stop is under way.
pub proof fn law_starting(l: &mut Lifecycle, r: Result<StartStep, JsError>)
    requires
        call_ensures(Lifecycle::start, (l,), r),
        old(l)@.valid(),
    ensures
        old(l)@.state is Stopped && !old(l)@.stop_awaited ==> r == Ok::<StartStep, JsError>(
            StartStep::Begin,
        ) && final(l)@.state is Starting && final(l)@.start_awaited,
        old(l)@.state is Starting ==> r == Ok::<StartStep, JsError>(StartStep::Wait)
            && final(l)@ == old(l)@,
        old(l)@.state is Running ==> r is Err && already(r->Err_0, "Proxy is already started"@)
            && final(l)@ == old(l)@,
        old(l)@.state is Stopping || (old(l)@.state is Stopped && old(l)@.stop_awaited) ==> r is Err
            && already(r->Err_0, "Proxy is stopping"@) && final(l)@ == old(l)@,
        final(l)@.stop_awaited == old(l)@.stop_awaited,
{
}

/// A start that finishes makes the proxy run, at the address that was bound, unless a stop got ahead
/// of it. Those who wait are told the same.
pub proof fn law_starts_finish(
    l: &mut Lifecycle,
    address: BoundListenAddress,
    r: (Result<(), DeferredJsError>, Option<StartStatus>),
)
    requires
        call_ensures(Lifecycle::start_finished, (l, address), r),
    ensures
        old(l)@.state is Starting || old(l)@.state is Running ==> r.0 is Ok
            && final(l)@.state is Running && final(l)@.address == Some(address),
        old(l)@.state is Stopping || old(l)@.state is Stopped ==> r.0 is Err && rejects(
            r.0->Err_0,
            "GenericFailure"@,
            "Proxy start was cancelled while stopping"@,
        ) && final(l)@.state == old(l)@.state,
        old(l)@.start_awaited ==> r.1 is Some && r.1->0 is Ready && r.1->0->Ready_0 == r.0,
        !old(l)@.start_awaited ==> r.1 is None,
        !final(l)@.start_awaited,
        final(l)@.stop_awaited == old(l)@.stop_awaited,
{
}

/// A start that fails leaves the proxy stopped, or a stop under way, and those who wait are told why.
pub proof fn law_starts_fail(
    l: &mut Lifecycle,
    error: &DeferredJsError,
    r: Option<StartStatus>,
)
    requires
        call_ensures(Lifecycle::start_failed, (l, error), r),
        old(l)@.valid(),
    ensures
        old(l)@.state is Starting ==> final(l)@.state is Stopped,
        !(old(l)@.state is Starting) ==> final(l)@.state == old(l)@.state,
        old(l)@.start_awaited ==> r is Some && r->0 is Ready && r->0->Ready_0 is Err
            && r->0->Ready_0->Err_0 == *error,
        !old(l)@.start_awaited ==> r is None,
        !final(l)@.start_awaited,
        final(l)@.stop_awaited == old(l)@.stop_awaited,
{
}

/// A stop begins where the proxy runs or starts, waits where one has yet to end, and has nothing to
/// do otherwise. Once all services are ended the proxy is stopped, and those who wait are told.
pub proof fn law_stopping(
    l: &mut Lifecycle,
    r: Result<StopStep, JsError>,
    ended: &mut Lifecycle,
    told: Option<StopStatus>,
)
    requires
        call_ensures(Lifecycle::stop, (l,), r),
        old(l)@.valid(),
        call_ensures(Lifecycle::stop_finished, (ended,), told),
    ensures
        old(l)@.state is Running ==> r == Ok::<StopStep, JsError>(
            StopStep::Begin { start_under_way: false },
        ) && final(l)@.state is Stopping && final(l)@.stop_awaited,
        old(l)@.state is Starting ==> r == Ok::<StopStep, JsError>(
            StopStep::Begin { start_under_way: true },
        ) && final(l)@.state is Stopping && final(l)@.stop_awaited && final(l)@.start_awaited,
        old(l)@.stop_awaited ==> r == Ok::<StopStep, JsError>(StopStep::Wait)
            && final(l)@.stop_awaited && final(l)@.state == old(l)@.state,
        old(l)@.state is Stopped && !old(l)@.stop_awaited ==> r == Ok::<StopStep, JsError>(
            StopStep::Done,
        ) && final(l)@.state is Stopped,
        old(ended)@.stop_awaited ==> final(ended)@.state is Stopped && final(ended)@.address is None
            && !final(ended)@.stop_awaited && !final(ended)@.start_awaited && told == Some(
            StopStatus::Ready,
        ),
        !old(ended)@.stop_awaited ==> final(ended)@ == old(ended)@ && told is None,
{
}

/// A start that was cancelled leaves a stop that is under way to end, and changes nothing else.
pub proof fn law_cancelled_starts(l: &mut Lifecycle)
    requires
        call_ensures(Lifecycle::start_cancelled, (l,), ()),
    ensures
        old(l)@.state is Stopping ==> final(l)@.state is Stopped && final(l)@.address is None,
        !(old(l)@.state is Stopping) ==> final(l)@ == old(l)@,
        final(l)@.stop_awaited == old(l)@.stop_awaited,
        final(l)@.start_awaited == old(l)@.start_awaited,
{
}

/// The address that callers see is the one that was bound, while the proxy runs, and none otherwise.
pub proof fn law_address_seen(l: &Lifecycle, r: Option<ProxyAddress>, running: bool)
    requires
        call_ensures(Lifecycle::address, (l,), r),
        call_ensures(Lifecycle::is_running, (l,), running),
    ensures
        running <==> l@.state is Running,
        r is Some <==> l@.state is Running && l@.address is Some,
        r matches Some(seen) ==> seen.hostname@ == l@.address->0.hostname@ && seen.port
            == l@.address->0.port,
{
}

/// Those who wait are told the outcome as it is.
pub proof fn law_outcomes_are_told(
    status: &StartStatus,
    r: Option<Result<(), DeferredJsError>>,
    stop: StopStatus,
    done: bool,
    no_start: DeferredJsError,
    no_stop: DeferredJsError,
)
    requires
        call_ensures(start_outcome, (status,), r),
        call_ensures(stop_outcome, (stop,), done),
        call_ensures(start_channel_closed, (), no_start),
        call_ensures(stop_channel_closed, (), no_stop),
    ensures
        *status is Pending ==> r is None,
        *status matches StartStatus::Ready(outcome) ==> r is Some && (r->0 is Ok <==> outcome is Ok)
            && (outcome is Err ==> r->0->Err_0 == outcome->Err_0),
        done <==> stop == StopStatus::Ready,
        rejects(no_start, "GenericFailure"@, "Proxy start channel closed unexpectedly"@),
        rejects(no_stop, "GenericFailure"@, "Proxy stop channel closed unexpectedly"@),
{
}

/// Why a listener could not be set up is told with its address and the reason.
pub proof fn law_listener_failures(
    listen: &str,
    failure: SetupFailure,
    r: DeferredJsError,
    tls: &ListenerTlsOptionsParsed,
    reason: &str,
    unconfigured: DeferredJsError,
)
    requires
        call_ensures(listen_error, (listen, failure), r),
        call_ensures(tls_error, (tls, reason), unconfigured),
    ensures
        r.code@ == "ListenBindFailed"@,
        failure matches SetupFailure::Bind(why) ==> r.message@ == "Failed to bind listener on '"@
            + listen@ + "': "@ + why@,
        failure matches SetupFailure::Address(why) ==> r.message@
            == "Failed to read bound listener address for '"@ + listen@ + "': "@ + why@,
        failure matches SetupFailure::Nonblocking(why) ==> r.message@
            == "Failed to set listener nonblocking: "@ + why@,
        rejects(
            unconfigured,
            "InvalidProxyOptions"@,
            "Failed to configure TLS using cert '"@ + tls.cert_path@ + "' and key '"@
                + tls.key_path@ + "': "@ + reason@,
        ),
{
}

/// Fewer upstreams than a valid proxy has can be planned.
pub proof fn lemma_fewer_planned<L>(m: Model<L>, app: App, upstream: Upstream)
    requires
        m.valid(),
        find_app(m.apps, app.name, 0) == Some(app),
        m.upstreams[app.name].contains(upstream),
    ensures
        pools_planned(app, m.upstreams[app.name].remove_value(upstream)) is Ok,
{
    lemma_current_planned(m, app);
    let all = m.upstreams[app.name];
    all.index_of_first_ensures(upstream);
    let at = all.index_of_first(upstream)->0;
    let fewer = all.remove_value(upstream);
    assert(fewer == all.remove(at));
    assert forall|t: TransportKind| (#[trigger] pool_planned(app, fewer, t)) is Ok by {
        let members = group(all, t);
        let left = group(fewer, t);
        let id = PoolId { app: app.name, transport: t };
        assert(m.pools.contains_key(id) <==> members.len() > 0);
        if left.len() > 0 {
            assert forall|k: int| 0 <= k < left.len() implies exists|j: int|
                0 <= j < members.len() && members[j] == #[trigger] left[k] by {
                let i = super::upstreams::laws::lemma_from_group(fewer, t, k);
                let x = if i < at {
                    i
                } else {
                    i + 1
                };
                assert(all[x] == fewer[i]);
                let j = super::upstreams::laws::lemma_in_group(all, t, x);
                assert(members[j] == left[k]);
            }
            assert(!mixed(members));
            assert forall|k: int| 0 <= k < left.len() implies (#[trigger] left[k]).secure
                == members[0].secure by {
                let j = choose|j: int| 0 <= j < members.len() && members[j] == left[k];
                assert(members[j].secure == members[0].secure);
            }
            assert(left[0].secure == members[0].secure);
            assert(!mixed(left));
        }
    }
    lemma_planned(app, fewer);
}

/// A rejection has the code and the message that it was given.
pub proof fn law_rejections_are_told(
    code: &'static str,
    message: String,
    one: DeferredJsError,
    other: DeferredJsError,
)
    requires
        call_ensures(DeferredJsError::generic, (code, message), one),
        call_ensures(DeferredJsError::type_error, (code, message), other),
    ensures
        rejects(one, code@, message@),
        rejects(other, code@, message@),
{
}

} // verus!
