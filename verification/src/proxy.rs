//! The proxy as its callers see it: what it serves, and what it does on their calls.

use std::sync::Arc;

use vstd::prelude::*;
use vstd::string::*;

use crate::errors::{codes, Failure, JsError};
use crate::lb::{BackendSet, TransportKind};
use crate::options::laws::law_accepted_applications_are_sound;
use crate::options::{
    app_views, name_taken, options_failure, options_kept, parse_proxy_options, App,
    ApplicationRoutingParsed, ListenerTlsOptionsParsed, ProxyOptions, ProxyOptionsParsed, Route,
};
use crate::router::{
    sessions, sticky_wf, AppPools, Pool, PoolConfig, Pools, Router, RouterConfig, Routes, Sessions,
};
use crate::sticky::{StickyModel, StickySessionConfig};
use crate::table::{Table, TableKey};
use crate::text;

pub mod call_laws;
pub mod laws;
pub mod lifecycle;
pub mod listener;
pub mod upstreams;

use lifecycle::{
    thrown, DeferredJsError, Lifecycle, Phase, ProxyAddress, Rejection, StartStep, StopStep,
};
use upstreams::{
    address_texts, name_required, plan_app_pools, plan_views, pools_planned, transports,
    verified_name, verify_hostname_for_secure_upstream, Plan, PoolPlan, PortUpstream, Upstream,
    UpstreamSet,
};

verus! {

/// What a pool is found by.
#[derive(Debug)]
pub struct PoolKey {
    pub app: String,
    pub transport: TransportKind,
}

/// The mathematical form of a [`PoolKey`].
pub struct PoolId {
    pub app: Seq<char>,
    pub transport: TransportKind,
}

impl View for PoolKey {
    type V = PoolId;

    open spec fn view(&self) -> PoolId {
        PoolId { app: self.app@, transport: self.transport }
    }
}

impl TableKey for PoolKey {
    type Query = PoolKey;

    fn answers(&self, query: &PoolKey) -> (r: bool) {
        self.transport == query.transport && self.app == query.app
    }

    fn as_query(&self) -> (r: &PoolKey) {
        self
    }
}

/// The pools in a map.
pub open spec fn pool_views<L>(pools: Map<PoolId, PoolConfig<L>>) -> Map<PoolId, Pool<L>> {
    pools.map_values(|pool: PoolConfig<L>| pool@)
}

/// The name of the service that checks the health of a pool.
pub open spec fn service_name(id: PoolId) -> Seq<char> {
    "lb:"@ + id.app + (match id.transport {
        TransportKind::Http1 => ":http"@,
        TransportKind::Http2 => ":http2"@,
        TransportKind::Ws => ":ws"@,
    })
}

/// The name of the service that checks the health of a pool.
pub fn lb_service_name(app: &str, transport: TransportKind) -> (r: String)
    ensures
        r@ == service_name(PoolId { app: app@, transport }),
{
    let mut name = "lb:".to_owned();
    name.append(app);
    match transport {
        TransportKind::Http1 => name.append(":http"),
        TransportKind::Http2 => name.append(":http2"),
        TransportKind::Ws => name.append(":ws"),
    }
    name
}

/// The pool of an application for a transport, if it has one.
pub open spec fn pool_at<L>(
    pools: Map<PoolId, Pool<L>>,
    app: Seq<char>,
    transport: TransportKind,
) -> Option<Pool<L>> {
    if pools.contains_key(PoolId { app, transport }) {
        Some(pools[PoolId { app, transport }])
    } else {
        None
    }
}

/// The pools of an application.
pub open spec fn pools_of<L>(pools: Map<PoolId, Pool<L>>, app: Seq<char>) -> Pools<L> {
    Pools {
        http1: pool_at(pools, app, TransportKind::Http1),
        ws: pool_at(pools, app, TransportKind::Ws),
        http2: pool_at(pools, app, TransportKind::Http2),
    }
}

/// The routes to the first `n` applications and their pools.
pub open spec fn routes_upto<L>(
    apps: Seq<App>,
    pools: Map<PoolId, Pool<L>>,
    n: int,
) -> Routes<L>
    decreases n,
{
    if n <= 0 {
        Routes::none()
    } else {
        let before = routes_upto(apps, pools, n - 1);
        let app = apps[n - 1];
        let routed = match app.route {
            Route::Subdomain(name) => Routes {
                subdomains: before.subdomains.insert(text::lowered(name), app.name),
                ..before
            },
            Route::Path(name) => Routes { paths: before.paths.insert(name, app.name), ..before },
            Route::Default => Routes { default_app: Some(app.name), ..before },
        };
        Routes { apps: routed.apps.insert(app.name, pools_of(pools, app.name)), ..routed }
    }
}

/// The routes to all applications and their pools.
pub open spec fn routes_to<L>(apps: Seq<App>, pools: Map<PoolId, Pool<L>>) -> Routes<L> {
    routes_upto(apps, pools, apps.len() as int)
}

fn find_pool<L>(
    pools: &Table<PoolKey, PoolConfig<L>>,
    app: &String,
    transport: TransportKind,
) -> (r: Option<PoolConfig<L>>)
    ensures
        crate::router::opt_pool(r) == pool_at(pool_views(pools@), app@, transport),
{
    match pools.get(&PoolKey { app: app.clone(), transport }) {
        Some(pool) => Some(pool.clone()),
        None => None,
    }
}

/// Builds the routes to all applications and their pools.
pub fn build_router_config<L>(
    options: &ProxyOptionsParsed,
    pools: &Table<PoolKey, PoolConfig<L>>,
) -> (r: RouterConfig<L>)
    ensures
        r@ == routes_to(app_views(options.applications@), pool_views(pools@)),
{
    let ghost apps = app_views(options.applications@);
    let ghost all = pool_views(pools@);
    let mut config: RouterConfig<L> = RouterConfig::default();
    let mut i: usize = 0;
    while i < options.applications.len()
        invariant
            i <= options.applications@.len(),
            apps == app_views(options.applications@),
            all == pool_views(pools@),
            config@ == routes_upto(apps, all, i as int),
        decreases options.applications@.len() - i,
    {
        let app = &options.applications[i];
        let ghost before = config;
        assert(apps[i as int] == app@);
        match &app.routing {
            ApplicationRoutingParsed::Subdomain { name } => {
                config.subdomain_routes.insert(text::to_lower(name.as_str()), app.name.clone());
            },
            ApplicationRoutingParsed::Path { name } => {
                config.path_routes.insert(name.clone(), app.name.clone());
            },
            ApplicationRoutingParsed::Default => {
                config.default_app = Some(app.name.clone());
            },
        }
        let app_pools = AppPools {
            http1: find_pool(pools, &app.name, TransportKind::Http1),
            ws: find_pool(pools, &app.name, TransportKind::Ws),
            http2: find_pool(pools, &app.name, TransportKind::Http2),
        };
        assert(app_pools@ == pools_of(all, app.name@));
        config.apps.insert(app.name.clone(), app_pools);
        assert(config@ =~= routes_upto(apps, all, i + 1));
        i += 1;
    }
    config
}

/// A proxy. `L` is the load balancer of a pool.
///
/// The sessions of its router may be moved out, to be locked apart from the rest.
pub struct Proxy<L> {
    pub options: ProxyOptionsParsed,
    pub lifecycle: Lifecycle,
    pub router: Router<L>,
    /// The upstreams of each application. The applications never change.
    pub upstreams_by_app: Table<String, UpstreamSet>,
    /// One pool per application and transport.
    pub pools: Table<PoolKey, PoolConfig<L>>,
}

/// The mathematical form of a [`Proxy`].
#[verifier::ext_equal]
pub struct Model<L> {
    pub apps: Seq<App>,
    pub phase: Phase,
    pub routes: Routes<L>,
    pub upstreams: Map<Seq<char>, Seq<Upstream>>,
    pub pools: Map<PoolId, Pool<L>>,
}

/// The upstreams in a map.
pub open spec fn upstream_views(upstreams: Map<Seq<char>, UpstreamSet>) -> Map<
    Seq<char>,
    Seq<Upstream>,
> {
    upstreams.map_values(|set: UpstreamSet| set@)
}

impl<L> View for Proxy<L> {
    type V = Model<L>;

    open spec fn view(&self) -> Model<L> {
        Model {
            apps: app_views(self.options.applications@),
            phase: self.lifecycle@,
            routes: self.router.config@,
            upstreams: upstream_views(self.upstreams_by_app@),
            pools: pool_views(self.pools@),
        }
    }
}

impl<L> Model<L> {
    /// A proxy of these applications that was just made.
    pub open spec fn initial(apps: Seq<App>) -> Model<L> {
        Model {
            apps,
            phase: Phase::initial(),
            routes: routes_to(apps, Map::empty()),
            upstreams: Map::new(
                |name: Seq<char>| name_taken(apps, apps.len() as int, name),
                |name: Seq<char>| Seq::empty(),
            ),
            pools: Map::empty(),
        }
    }
}

/// How the sticky sessions behave that the options ask for. The cookie is marked `Secure` when the
/// listener has TLS.
pub open spec fn sticky_settings(options: ProxyOptionsParsed) -> StickySessionConfig {
    StickySessionConfig {
        enabled: options.sticky_sessions.enabled,
        cookie_name: options.sticky_sessions.cookie_name,
        header_name: options.sticky_sessions.header_name,
        ttl_ms: options.sticky_sessions.ttl_ms,
        max_entries: options.sticky_sessions.max_entries,
        cookie_secure: options.tls is Some,
    }
}

/// Where to listen after a start was begun.
pub struct StartPlan {
    pub listen: String,
    pub tls: Option<ListenerTlsOptionsParsed>,
}

/// The names and the load balancers of health checks.
pub open spec fn task_views<L>(tasks: Seq<(String, Arc<L>)>) -> Seq<(Seq<char>, L)> {
    tasks.map_values(|task: (String, Arc<L>)| (task.0@, *task.1))
}

/// Whether the tasks are the health checks of the pools: one for each, with its load balancer.
pub open spec fn tasks_fit<L>(tasks: Seq<(String, Arc<L>)>, pools: Map<PoolId, Pool<L>>) -> bool {
    exists|ids: Seq<PoolId>|
        {
            &&& ids.no_duplicates()
            &&& ids.to_set() == pools.dom()
            &&& tasks.len() == ids.len()
            &&& forall|i: int|
                0 <= i < tasks.len() ==> (#[trigger] tasks[i]).0@ == service_name(ids[i])
                    && *tasks[i].1 == pools[ids[i]].lb
        }
}

/// The first application from number `i` on that has a name.
pub open spec fn find_app(apps: Seq<App>, name: Seq<char>, i: int) -> Option<App>
    decreases apps.len() - i,
{
    if i >= apps.len() {
        None
    } else if apps[i].name == name {
        Some(apps[i])
    } else {
        find_app(apps, name, i + 1)
    }
}

/// The rejection of a call about an application that there is not.
pub open spec fn unknown_application(name: Seq<char>) -> Rejection {
    Rejection {
        code: codes::UNKNOWN_APPLICATION@,
        message: "Unknown application '"@ + name + "'"@,
    }
}

fn unknown_application_error(name: &str) -> (r: DeferredJsError)
    ensures
        r@ == unknown_application(name@),
{
    let mut message = "Unknown application '".to_owned();
    message.append(name);
    message.append("'");
    DeferredJsError::generic(codes::UNKNOWN_APPLICATION, message)
}

/// A change of an application's upstreams that is to be made once the pools are built.
pub struct UpstreamUpdate {
    pub app_name: String,
    pub upstreams: UpstreamSet,
    pub pools: Vec<PoolPlan>,
    pub health_check_interval_ms: u32,
}

/// The mathematical form of an [`UpstreamUpdate`].
#[verifier::ext_equal]
pub struct Update {
    pub app: Seq<char>,
    pub upstreams: Seq<Upstream>,
    pub pools: Seq<Plan>,
}

impl View for UpstreamUpdate {
    type V = Update;

    open spec fn view(&self) -> Update {
        Update {
            app: self.app_name@,
            upstreams: self.upstreams@,
            pools: plan_views(self.pools@),
        }
    }
}

/// The mathematical form of an update that may be rejected.
pub open spec fn update_view(r: Result<UpstreamUpdate, DeferredJsError>) -> Result<
    Update,
    Rejection,
> {
    match r {
        Ok(update) => Ok(update@),
        Err(e) => Err(e@),
    }
}

impl<L> Model<L> {
    /// The application with a name and its upstreams.
    pub open spec fn application(self, name: Seq<char>) -> Option<(App, Seq<Upstream>)> {
        match find_app(self.apps, name, 0) {
            Some(app) => if self.upstreams.contains_key(name) {
                Some((app, self.upstreams[name]))
            } else {
                None
            },
            None => None,
        }
    }

    /// The change to `upstreams`.
    pub open spec fn update_to(self, app: App, upstreams: Seq<Upstream>) -> Result<
        Update,
        Rejection,
    > {
        match pools_planned(app, upstreams) {
            Ok(pools) => Ok(Update { app: app.name, upstreams, pools }),
            Err(e) => Err(e),
        }
    }

    /// What adding an upstream comes to.
    pub open spec fn adding(self, name: Seq<char>, upstream: Upstream) -> Result<
        Update,
        Rejection,
    > {
        match self.application(name) {
            None => Err(unknown_application(name)),
            Some((app, upstreams)) => if upstreams.contains(upstream) {
                Err(
                    Rejection {
                        code: codes::UPSTREAM_ALREADY_EXISTS@,
                        message: "Upstream already exists"@,
                    },
                )
            } else if upstream.secure && verified_name(app) is None {
                Err(name_required())
            } else {
                self.update_to(app, upstreams.push(upstream))
            },
        }
    }

    /// What removing an upstream comes to.
    pub open spec fn removing(self, name: Seq<char>, upstream: Upstream) -> Result<
        Update,
        Rejection,
    > {
        match self.application(name) {
            None => Err(unknown_application(name)),
            Some((app, upstreams)) => if !upstreams.contains(upstream) {
                Err(
                    Rejection {
                        code: codes::UPSTREAM_NOT_FOUND@,
                        message: "Upstream not found"@,
                    },
                )
            } else {
                self.update_to(app, upstreams.remove_value(upstream))
            },
        }
    }
}

impl<L> Proxy<L> {
    /// A proxy with these options. It has no upstreams, and is stopped.
    pub fn new(options: ProxyOptions) -> (r: Result<Self, JsError>)
        ensures
            (match r {
                Ok(proxy) => {
                    &&& options_failure(options) is None
                    &&& options_kept(options, proxy.options)
                    &&& proxy@ == Model::<L>::initial(app_views(proxy.options.applications@))
                    &&& proxy@.valid()
                    &&& sticky_wf(proxy.router.sticky)
                    &&& sessions(proxy.router.sticky) == (if proxy.options.sticky_sessions.enabled {
                        Some(
                            Sessions {
                                settings: sticky_settings(proxy.options),
                                model: StickyModel::initial(),
                            },
                        )
                    } else {
                        None
                    })
                },
                Err(e) => options_failure(options) == Some(e@),
            }),
    {
        let options = parse_proxy_options(options)?;
        let ghost apps = app_views(options.applications@);
        let mut router: Router<L> = Router::new(
            RouterConfig::default(),
            StickySessionConfig {
                enabled: options.sticky_sessions.enabled,
                cookie_name: options.sticky_sessions.cookie_name.clone(),
                header_name: options.sticky_sessions.header_name.clone(),
                ttl_ms: options.sticky_sessions.ttl_ms,
                max_entries: options.sticky_sessions.max_entries,
                cookie_secure: options.tls.is_some(),
            },
        );
        let mut upstreams_by_app: Table<String, UpstreamSet> = Table::new();
        let mut i: usize = 0;
        while i < options.applications.len()
            invariant
                i <= options.applications@.len(),
                apps == app_views(options.applications@),
                forall|name: Seq<char>|
                    #![trigger upstreams_by_app@.contains_key(name)]
                    upstreams_by_app@.contains_key(name) == name_taken(apps, i as int, name),
                forall|name: Seq<char>|
                    #![trigger upstreams_by_app@[name]]
                    upstreams_by_app@.contains_key(name) ==> upstreams_by_app@[name]@ == Seq::<
                        Upstream,
                    >::empty(),
            decreases options.applications@.len() - i,
        {
            let ghost before = upstreams_by_app@;
            assert(apps[i as int].name == options.applications@[i as int].name@);
            upstreams_by_app.insert(options.applications[i].name.clone(), UpstreamSet::new());
            assert forall|name: Seq<char>|
                #![trigger upstreams_by_app@.contains_key(name)]
                upstreams_by_app@.contains_key(name) == name_taken(apps, i + 1, name) by {
                if name_taken(apps, i as int, name) {
                    let j = choose|j: int| 0 <= j < i && (#[trigger] apps[j]).name == name;
                    assert(apps[j].name == name);
                }
                if name_taken(apps, i + 1, name) && name != apps[i as int].name {
                    let j = choose|j: int| 0 <= j < i + 1 && (#[trigger] apps[j]).name == name;
                    assert(apps[j].name == name);
                }
                assert(before.contains_key(name) == name_taken(apps, i as int, name));
            }
            i += 1;
        }
        let pools: Table<PoolKey, PoolConfig<L>> = Table::new();
        assert(pool_views(pools@) =~= Map::<PoolId, Pool<L>>::empty());
        router.update(build_router_config(&options, &pools));
        let proxy = Proxy {
            options,
            lifecycle: Lifecycle::new(),
            router,
            upstreams_by_app,
            pools,
        };
        assert(proxy@.upstreams =~= Model::<L>::initial(apps).upstreams);
        assert(proxy@ =~= Model::<L>::initial(apps));
        proof {
            law_accepted_applications_are_sound(apps);
            laws::law_new_proxies_are_valid::<L>(apps);
        }
        Ok(proxy)
    }

    /// A caller asks for a start. There is a plan for the caller that begins it; the others wait
    /// for it.
    pub fn start(&mut self) -> (r: Result<Option<StartPlan>, JsError>)
        ensures
            final(self)@ == (Model { phase: old(self)@.phase.after_start(), ..old(self)@ }),
            old(self)@.valid() ==> final(self)@.valid(),
            final(self).options == old(self).options,
            final(self).router == old(self).router,
            (match r {
                Ok(Some(plan)) => {
                    &&& old(self)@.phase.start() == Ok::<StartStep, Failure>(StartStep::Begin)
                    &&& plan.listen == old(self).options.listen
                    &&& plan.tls == old(self).options.tls
                },
                Ok(None) => old(self)@.phase.start() == Ok::<StartStep, Failure>(StartStep::Wait),
                Err(e) => old(self)@.phase.start() == Err::<StartStep, Failure>(e@),
            }),
    {
        match self.lifecycle.start()? {
            StartStep::Wait => Ok(None),
            StartStep::Begin => {
                let tls = match &self.options.tls {
                    Some(tls) => Some(tls.clone()),
                    None => None,
                };
                Ok(Some(StartPlan { listen: self.options.listen.clone(), tls }))
            },
        }
    }

    /// The health checks of the pools as they are. A start runs those of the pools that are there
    /// when it finishes: the pools may change while it is under way.
    pub fn lb_tasks(&self) -> (r: Vec<(String, Arc<L>)>)
        ensures
            tasks_fit(r@, self@.pools),
    {
        let mut tasks: Vec<(String, Arc<L>)> = Vec::new();
        let ghost rows = self.pools.rows();
        let n = self.pools.len();
        let mut i: usize = 0;
        while i < n
            invariant
                i <= n == rows.len(),
                rows == self.pools.rows(),
                tasks@.len() == i,
                forall|j: int|
                    0 <= j < i ==> (#[trigger] tasks@[j]).0@ == service_name(rows[j].0@)
                        && *tasks@[j].1 == self@.pools[rows[j].0@].lb,
            decreases n - i,
        {
            let (key, pool) = self.pools.row(i);
            tasks.push((lb_service_name(key.app.as_str(), key.transport), pool.lb.clone()));
            i += 1;
        }
        proof {
            let ids = self.pools.row_keys();
            assert(tasks_fit(tasks@, self@.pools)) by {
                assert(self@.pools.dom() =~= self.pools@.dom());
            }
        }
        tasks
    }

    /// A caller asks for a stop.
    pub fn stop(&mut self) -> (r: Result<StopStep, JsError>)
        ensures
            final(self)@ == (Model { phase: old(self)@.phase.after_stop(), ..old(self)@ }),
            old(self)@.valid() ==> final(self)@.valid(),
            final(self).options == old(self).options,
            final(self).router == old(self).router,
            thrown(r) == old(self)@.phase.stop(),
    {
        self.lifecycle.stop()
    }

    /// The address that the listener is bound to, while the proxy runs.
    pub fn address(&self) -> (r: Option<ProxyAddress>)
        ensures
            (match r {
                Some(address) => self@.phase.shown_address() matches Some(bound)
                    && address.hostname == bound.hostname && address.port == bound.port,
                None => self@.phase.shown_address() is None,
            }),
    {
        self.lifecycle.address()
    }
}

/// A load balancer that was built for a pool, and the addresses that it balances over.
pub struct BuiltPool<L> {
    pub lb: Arc<L>,
    pub backends: Arc<BackendSet>,
}

/// The pool that a plan and what was built for it make.
pub open spec fn pool_made<L>(plan: Plan, built: BuiltPool<L>) -> Pool<L> {
    Pool {
        lb: *built.lb,
        secure: plan.secure,
        verify_hostname: plan.verify_hostname,
        backends: built.backends@,
    }
}

/// Takes the load balancer that was built over a pool's addresses, or the reason why none was.
pub fn finish_pool<L>(addresses: &Vec<String>, built: Result<L, String>) -> (r: Result<
    BuiltPool<L>,
    DeferredJsError,
>)
    ensures
        (match (built, r) {
            (Ok(lb), Ok(pool)) => *pool.lb == lb && pool.backends@ == address_texts(
                addresses@,
            ).to_set(),
            (Err(reason), Err(e)) => e@ == (Rejection {
                code: codes::INVALID_PROXY_OPTIONS@,
                message: "Failed to build load balancer: "@ + reason@,
            }),
            _ => false,
        }),
{
    let lb = match built {
        Ok(lb) => lb,
        Err(reason) => {
            let mut message = "Failed to build load balancer: ".to_owned();
            message.append(reason.as_str());
            return Err(DeferredJsError::type_error(codes::INVALID_PROXY_OPTIONS, message));
        },
    };
    let mut backends = BackendSet::new();
    let ghost texts = address_texts(addresses@);
    let mut i: usize = 0;
    assert(texts.take(0).to_set() =~= Set::<Seq<char>>::empty());
    while i < addresses.len()
        invariant
            i <= addresses@.len(),
            texts == address_texts(addresses@),
            backends@ == texts.take(i as int).to_set(),
        decreases addresses@.len() - i,
    {
        backends.insert(addresses[i].clone());
        proof {
            let a = texts.take(i as int);
            let b = texts.take(i + 1);
            assert(b =~= a.push(texts[i as int]));
            assert(b.to_set() =~= a.to_set().insert(texts[i as int])) by {
                assert forall|x: Seq<char>| b.to_set().contains(x) <==> a.to_set().insert(
                    texts[i as int],
                ).contains(x) by {
                    if a.contains(x) {
                        let k = choose|k: int| 0 <= k < a.len() && a[k] == x;
                        assert(b[k] == x);
                    }
                    assert(b[i as int] == texts[i as int]);
                }
            }
        }
        i += 1;
    }
    assert(texts.take(i as int) =~= texts);
    Ok(BuiltPool { lb: Arc::new(lb), backends: Arc::new(backends) })
}

/// The last of the first `n` plans that is for a transport.
pub open spec fn plan_for(plans: Seq<Plan>, transport: TransportKind, n: int) -> Option<int>
    decreases n,
{
    if n <= 0 {
        None
    } else if plans[n - 1].transport == transport {
        Some(n - 1)
    } else {
        plan_for(plans, transport, n - 1)
    }
}

/// The pools after those of an application were replaced.
pub open spec fn pools_replaced<L>(
    pools: Map<PoolId, Pool<L>>,
    app: Seq<char>,
    plans: Seq<Plan>,
    built: Seq<BuiltPool<L>>,
) -> Map<PoolId, Pool<L>> {
    let n = plans.len() as int;
    Map::new(
        |id: PoolId|
            if id.app == app {
                plan_for(plans, id.transport, n) is Some
            } else {
                pools.contains_key(id)
            },
        |id: PoolId|
            if id.app == app {
                pool_made(
                    plans[plan_for(plans, id.transport, n)->0],
                    built[plan_for(plans, id.transport, n)->0],
                )
            } else {
                pools[id]
            },
    )
}

/// The health checks that an update comes with: one for each pool that was built.
pub open spec fn services_begun<L>(update: Update, built: Seq<BuiltPool<L>>) -> Seq<
    (Seq<char>, L),
> {
    Seq::new(
        built.len(),
        |i: int|
            (
                service_name(PoolId { app: update.app, transport: update.pools[i].transport }),
                *built[i].lb,
            ),
    )
}

/// The names of the services that a replacement of an application's pools leaves without a pool,
/// among the first `n` transports.
pub open spec fn services_ended<L>(
    pools: Map<PoolId, Pool<L>>,
    app: Seq<char>,
    plans: Seq<Plan>,
    n: int,
) -> Seq<Seq<char>>
    decreases n,
{
    if n <= 0 {
        Seq::empty()
    } else {
        let before = services_ended(pools, app, plans, n - 1);
        let id = PoolId { app, transport: transports()[n - 1] };
        if plan_for(plans, id.transport, plans.len() as int) is None && pools.contains_key(id) {
            before.push(service_name(id))
        } else {
            before
        }
    }
}

impl<L> Model<L> {
    /// After an update was made.
    pub open spec fn updated(self, update: Update, built: Seq<BuiltPool<L>>) -> Model<L> {
        let pools = pools_replaced(self.pools, update.app, update.pools, built);
        Model {
            upstreams: self.upstreams.insert(update.app, update.upstreams),
            pools,
            routes: routes_to(self.apps, pools),
            ..self
        }
    }
}

/// What happens to the services after the pools changed. Nothing does unless the proxy runs.
pub struct ServiceChanges<L> {
    pub is_running: bool,
    /// The health checks that take the place of those with the same name.
    pub to_upsert: Vec<(String, Arc<L>)>,
    pub to_remove: Vec<String>,
}

impl<L> Proxy<L> {
    fn find_application(&self, name: &str) -> (r: Option<usize>)
        ensures
            (match r {
                Some(i) => i < self.options.applications@.len() && find_app(self@.apps, name@, 0)
                    == Some(self.options.applications@[i as int]@),
                None => find_app(self@.apps, name@, 0) is None,
            }),
    {
        let ghost apps = self@.apps;
        let mut i: usize = 0;
        while i < self.options.applications.len()
            invariant
                i <= self.options.applications@.len(),
                apps == self@.apps,
                find_app(apps, name@, 0) == find_app(apps, name@, i as int),
            decreases self.options.applications@.len() - i,
        {
            assert(apps[i as int] == self.options.applications@[i as int]@);
            if text::same(self.options.applications[i].name.as_str(), name) {
                return Some(i);
            }
            i += 1;
        }
        None
    }

    fn plan_update(&self, app: usize, upstreams: UpstreamSet) -> (r: Result<
        UpstreamUpdate,
        DeferredJsError,
    >)
        requires
            app < self.options.applications@.len(),
        ensures
            update_view(r) == self@.update_to(
                self.options.applications@[app as int]@,
                upstreams@,
            ),
            r matches Ok(update) ==> update.health_check_interval_ms
                == self.options.health_check_interval_ms,
    {
        let app = &self.options.applications[app];
        let pools = plan_app_pools(app, &upstreams)?;
        Ok(
            UpstreamUpdate {
                app_name: app.name.clone(),
                upstreams,
                pools,
                health_check_interval_ms: self.options.health_check_interval_ms,
            },
        )
    }

    /// A caller adds an upstream. The result is the change that [`Proxy::commit_update`] makes.
    pub fn add_upstream(&self, app_name: &str, upstream: &PortUpstream) -> (r: Result<
        UpstreamUpdate,
        DeferredJsError,
    >)
        ensures
            update_view(r) == self@.adding(app_name@, upstream@),
            r matches Ok(update) ==> update.health_check_interval_ms
                == self.options.health_check_interval_ms,
    {
        let app = match self.find_application(app_name) {
            Some(app) => app,
            None => return Err(unknown_application_error(app_name)),
        };
        let current = match self.upstreams_by_app.get(app_name) {
            Some(current) => current,
            None => return Err(unknown_application_error(app_name)),
        };
        if current.contains(upstream) {
            return Err(
                DeferredJsError::generic(
                    codes::UPSTREAM_ALREADY_EXISTS,
                    "Upstream already exists".to_owned(),
                ),
            );
        }
        if upstream.secure {
            if let Err(e) = verify_hostname_for_secure_upstream(&self.options.applications[app]) {
                return Err(e);
            }
        }
        self.plan_update(app, current.with(upstream))
    }

    /// A caller removes an upstream. The result is the change that [`Proxy::commit_update`] makes.
    pub fn remove_upstream(&self, app_name: &str, upstream: &PortUpstream) -> (r: Result<
        UpstreamUpdate,
        DeferredJsError,
    >)
        ensures
            update_view(r) == self@.removing(app_name@, upstream@),
            r matches Ok(update) ==> update.health_check_interval_ms
                == self.options.health_check_interval_ms,
    {
        let app = match self.find_application(app_name) {
            Some(app) => app,
            None => return Err(unknown_application_error(app_name)),
        };
        let current = match self.upstreams_by_app.get(app_name) {
            Some(current) => current,
            None => return Err(unknown_application_error(app_name)),
        };
        if !current.contains(upstream) {
            return Err(
                DeferredJsError::generic(
                    codes::UPSTREAM_NOT_FOUND,
                    "Upstream not found".to_owned(),
                ),
            );
        }
        self.plan_update(app, current.without(upstream))
    }

    /// Makes a change of an application's upstreams, given what was built for each of its pools.
    /// The routes are replaced as a whole.
    pub fn commit_update(&mut self, update: UpstreamUpdate, built: Vec<BuiltPool<L>>) -> (r: Result<
        ServiceChanges<L>,
        DeferredJsError,
    >)
        requires
            built@.len() == update.pools@.len(),
        ensures
            final(self).options == old(self).options,
            final(self).router.sticky == old(self).router.sticky,
            old(self)@.valid() && laws::update_asked(old(self)@, update@) ==> r is Ok
                && final(self)@.valid(),
            (match r {
                Ok(changes) => {
                    &&& old(self)@.upstreams.contains_key(update.app_name@)
                    &&& final(self)@ == old(self)@.updated(update@, built@)
                    &&& changes.is_running == (old(self)@.phase.state is Running)
                    &&& task_views(changes.to_upsert@) == services_begun(update@, built@)
                    &&& address_texts(changes.to_remove@) == services_ended(
                        old(self)@.pools,
                        update.app_name@,
                        update@.pools,
                        3,
                    )
                },
                Err(e) => {
                    &&& !old(self)@.upstreams.contains_key(update.app_name@)
                    &&& *final(self) == *old(self)
                    &&& e@ == unknown_application(update.app_name@)
                },
            }),
    {
        let ghost m = self@;
        let ghost plans = update@.pools;
        let ghost all = built@;
        let app_name = update.app_name;
        if !self.upstreams_by_app.contains_key(app_name.as_str()) {
            proof {
                if m.valid() && laws::update_asked(m, update@) {
                    laws::lemma_asked(m, update@);
                }
            }
            return Err(unknown_application_error(app_name.as_str()));
        }
        self.upstreams_by_app.insert(app_name.clone(), update.upstreams);
        let mut to_upsert: Vec<(String, Arc<L>)> = Vec::new();
        let mut n: usize = 0;
        let count = update.pools.len();
        for pool in it: built
            invariant
                n == it.index(),
                it.seq() == all,
                all.len() == count == plans.len() == update.pools@.len(),
                plans == plan_views(update.pools@),
                self.options == old(self).options,
                self.router == old(self).router,
                self.lifecycle == old(self).lifecycle,
                self.upstreams_by_app@ == old(self).upstreams_by_app@.insert(
                    app_name@,
                    update.upstreams,
                ),
                to_upsert@.len() == n,
                forall|i: int|
                    0 <= i < n ==> (#[trigger] to_upsert@[i]).0@ == service_name(
                        PoolId { app: app_name@, transport: plans[i].transport },
                    ) && to_upsert@[i].1 == all[i].lb,
                inserted(m.pools, pool_views(self.pools@), app_name@, plans, all, n as int),
        {
            let ghost before = pool_views(self.pools@);
            let plan = &update.pools[n];
            assert(plans[n as int] == plan@);
            to_upsert.push(
                (lb_service_name(app_name.as_str(), plan.transport), pool.lb.clone()),
            );
            let config = PoolConfig {
                lb: pool.lb,
                secure: plan.secure,
                verify_hostname: plan.verify_hostname.clone(),
                backends: pool.backends,
            };
            let ghost id = PoolId { app: app_name@, transport: plan.transport };
            let ghost made = config@;
            self.pools.insert(
                PoolKey { app: app_name.clone(), transport: plan.transport },
                config,
            );
            proof {
                assert(pool_views(self.pools@) =~= before.insert(id, made));
                lemma_inserted_step(m.pools, before, app_name@, plans, all, n as int);
            }
            n += 1;
        }
        let mut to_remove: Vec<String> = Vec::new();
        let order = [TransportKind::Http1, TransportKind::Http2, TransportKind::Ws];
        let mut t: usize = 0;
        assert(address_texts(to_remove@) =~= Seq::<Seq<char>>::empty());
        let ghost replaced = pool_views(self.pools@);
        while t < 3
            invariant
                t <= 3,
                order@ == transports(),
                plans.len() == update.pools@.len(),
                plans == plan_views(update.pools@),
                self.options == old(self).options,
                self.router == old(self).router,
                self.lifecycle == old(self).lifecycle,
                self.upstreams_by_app@ == old(self).upstreams_by_app@.insert(
                    app_name@,
                    update.upstreams,
                ),
                inserted(m.pools, replaced, app_name@, plans, all, plans.len() as int),
                address_texts(to_remove@) == services_ended(m.pools, app_name@, plans, t as int),
                dropped(replaced, pool_views(self.pools@), app_name@, plans, t as int),
            decreases 3 - t,
        {
            let transport = order[t];
            let ghost before = pool_views(self.pools@);
            let ghost removed0 = to_remove@;
            let ghost id = PoolId { app: app_name@, transport };
            proof {
                lemma_dropped_step(replaced, before, app_name@, plans, t as int);
                assert(inserted_at(m.pools, replaced, app_name@, plans, all, plans.len() as int, id));
            }
            if !is_planned(&update.pools, transport) {
                let key = PoolKey { app: app_name.clone(), transport };
                if self.pools.remove(&key).is_some() {
                    to_remove.push(lb_service_name(app_name.as_str(), transport));
                    assert(address_texts(to_remove@) =~= address_texts(removed0).push(
                        service_name(id),
                    ));
                }
                assert(pool_views(self.pools@) =~= before.remove(id));
            }
            t += 1;
        }
        proof {
            lemma_all_dropped(m.pools, replaced, pool_views(self.pools@), app_name@, plans, all);
        }
        let config = build_router_config(&self.options, &self.pools);
        self.router.update(config);
        assert(self@ =~= m.updated(update@, all));
        assert(task_views(to_upsert@) =~= services_begun(update@, all));
        proof {
            if m.valid() && laws::update_asked(m, update@) {
                laws::law_updates_keep_proxies_valid(m, update@, all);
            }
        }
        Ok(ServiceChanges { is_running: self.lifecycle.is_running(), to_upsert, to_remove })
    }
}

/// Whether one of the plans is for a transport.
fn is_planned(plans: &Vec<PoolPlan>, transport: TransportKind) -> (r: bool)
    ensures
        r == (plan_for(plan_views(plans@), transport, plans@.len() as int) is Some),
{
    let mut n: usize = plans.len();
    while n > 0
        invariant
            n <= plans@.len(),
            plan_for(plan_views(plans@), transport, plans@.len() as int) == plan_for(
                plan_views(plans@),
                transport,
                n as int,
            ),
        decreases n,
    {
        assert(plan_views(plans@)[n - 1] == plans@[n - 1]@);
        if plans[n - 1].transport == transport {
            return true;
        }
        n -= 1;
    }
    false
}

/// Whether `after` has under `id` what `pools` has with the pools of the first `n` plans put in.
spec fn inserted_at<L>(
    pools: Map<PoolId, Pool<L>>,
    after: Map<PoolId, Pool<L>>,
    app: Seq<char>,
    plans: Seq<Plan>,
    built: Seq<BuiltPool<L>>,
    n: int,
    id: PoolId,
) -> bool {
    if id.app == app && plan_for(plans, id.transport, n) is Some {
        let i = plan_for(plans, id.transport, n)->0;
        after.contains_key(id) && after[id] == pool_made(plans[i], built[i])
    } else {
        after.contains_key(id) == pools.contains_key(id) && (pools.contains_key(id) ==> after[id]
            == pools[id])
    }
}

/// Whether `after` is `pools` with the pools of the first `n` plans put in.
spec fn inserted<L>(
    pools: Map<PoolId, Pool<L>>,
    after: Map<PoolId, Pool<L>>,
    app: Seq<char>,
    plans: Seq<Plan>,
    built: Seq<BuiltPool<L>>,
    n: int,
) -> bool {
    forall|id: PoolId| #[trigger] inserted_at(pools, after, app, plans, built, n, id)
}

/// Which of the transports one is.
spec fn place(transport: TransportKind) -> int {
    match transport {
        TransportKind::Http1 => 0,
        TransportKind::Http2 => 1,
        TransportKind::Ws => 2,
    }
}

/// Whether `after` has under `id` what `pools` has without the pools of the first `n` transports
/// that are not planned.
spec fn dropped_at<L>(
    pools: Map<PoolId, Pool<L>>,
    after: Map<PoolId, Pool<L>>,
    app: Seq<char>,
    plans: Seq<Plan>,
    n: int,
    id: PoolId,
) -> bool {
    if id.app == app && plan_for(plans, id.transport, plans.len() as int) is None && place(
        id.transport,
    ) < n {
        !after.contains_key(id)
    } else {
        after.contains_key(id) == pools.contains_key(id) && (pools.contains_key(id) ==> after[id]
            == pools[id])
    }
}

/// Whether `after` is `pools` without those of the first `n` transports that are not planned.
spec fn dropped<L>(
    pools: Map<PoolId, Pool<L>>,
    after: Map<PoolId, Pool<L>>,
    app: Seq<char>,
    plans: Seq<Plan>,
    n: int,
) -> bool {
    forall|id: PoolId| #[trigger] dropped_at(pools, after, app, plans, n, id)
}

#[verifier::spinoff_prover]
proof fn lemma_inserted_step<L>(
    pools: Map<PoolId, Pool<L>>,
    before: Map<PoolId, Pool<L>>,
    app: Seq<char>,
    plans: Seq<Plan>,
    built: Seq<BuiltPool<L>>,
    n: int,
)
    requires
        0 <= n < plans.len(),
        inserted(pools, before, app, plans, built, n),
    ensures
        inserted(
            pools,
            before.insert(
                PoolId { app, transport: plans[n].transport },
                pool_made(plans[n], built[n]),
            ),
            app,
            plans,
            built,
            n + 1,
        ),
{
    let added = PoolId { app, transport: plans[n].transport };
    let after = before.insert(added, pool_made(plans[n], built[n]));
    assert forall|id: PoolId| #[trigger]
        inserted_at(pools, after, app, plans, built, n + 1, id) by {
        assert(inserted_at(pools, before, app, plans, built, n, id));
        if id == added {
            assert(plan_for(plans, id.transport, n + 1) == Some(n));
            assert(after[id] == pool_made(plans[n], built[n]));
        } else {
            assert(after.contains_key(id) == before.contains_key(id));
            assert(before.contains_key(id) ==> after[id] == before[id]);
            assert(id.app == app ==> plan_for(plans, id.transport, n + 1) == plan_for(
                plans,
                id.transport,
                n,
            ));
        }
    }
}

#[verifier::spinoff_prover]
proof fn lemma_dropped_step<L>(
    pools: Map<PoolId, Pool<L>>,
    before: Map<PoolId, Pool<L>>,
    app: Seq<char>,
    plans: Seq<Plan>,
    t: int,
)
    requires
        0 <= t < 3,
        dropped(pools, before, app, plans, t),
    ensures
        ({
            let id = PoolId { app, transport: transports()[t] };
            &&& before.contains_key(id) == pools.contains_key(id)
            &&& plan_for(plans, id.transport, plans.len() as int) is None ==> dropped(
                pools,
                before.remove(id),
                app,
                plans,
                t + 1,
            )
            &&& plan_for(plans, id.transport, plans.len() as int) is Some ==> dropped(
                pools,
                before,
                app,
                plans,
                t + 1,
            )
        }),
{
    let gone = PoolId { app, transport: transports()[t] };
    let unplanned = plan_for(plans, gone.transport, plans.len() as int) is None;
    let after = if unplanned {
        before.remove(gone)
    } else {
        before
    };
    assert(place(gone.transport) == t);
    assert(dropped_at(pools, before, app, plans, t, gone));
    assert forall|id: PoolId| #[trigger] dropped_at(pools, after, app, plans, t + 1, id) by {
        assert(dropped_at(pools, before, app, plans, t, id));
        if id != gone {
            assert(after.contains_key(id) == before.contains_key(id));
            assert(before.contains_key(id) ==> after[id] == before[id]);
            assert(id.app == app ==> place(id.transport) != t);
        }
    }
}

#[verifier::spinoff_prover]
proof fn lemma_all_dropped<L>(
    pools: Map<PoolId, Pool<L>>,
    replaced: Map<PoolId, Pool<L>>,
    after: Map<PoolId, Pool<L>>,
    app: Seq<char>,
    plans: Seq<Plan>,
    built: Seq<BuiltPool<L>>,
)
    requires
        inserted(pools, replaced, app, plans, built, plans.len() as int),
        dropped(replaced, after, app, plans, 3),
    ensures
        after == pools_replaced(pools, app, plans, built),
{
    let expected = pools_replaced(pools, app, plans, built);
    let n = plans.len() as int;
    assert forall|id: PoolId| after.contains_key(id) == #[trigger] expected.contains_key(id) by {
        assert(inserted_at(pools, replaced, app, plans, built, n, id));
        assert(dropped_at(replaced, after, app, plans, 3, id));
    }
    assert forall|id: PoolId| #[trigger] after.contains_key(id) implies after[id]
        == expected[id] by {
        assert(inserted_at(pools, replaced, app, plans, built, n, id));
        assert(dropped_at(replaced, after, app, plans, 3, id));
    }
    assert(after =~= expected);
}

} // verus!
