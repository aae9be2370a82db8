//! Upstreams, and the pools that are made of them.

use vstd::prelude::*;
use vstd::string::*;

use super::lifecycle::{DeferredJsError, Rejection};
use crate::errors::{
    codes, generic_error, generic_failure, throw_type_error, type_failure, Failure, JsError,
};
use crate::lb::{BackendSet, TransportKind};
use crate::options::{App, ApplicationOptionsParsed, ApplicationRoutingParsed, Route};
use crate::text;

pub mod laws;

verus! {

/// An upstream with a port, as callers give it.
#[derive(Debug)]
pub struct PortUpstreamOptions {
    /// `port`.
    pub kind: String,
    /// `http`, `http2` or `ws`.
    pub transport: String,
    pub secure: bool,
    pub hostname: String,
    pub port: u32,
}

/// An upstream behind a Unix socket, as callers give it.
#[derive(Debug)]
pub struct UnixSocketUpstreamOptions {
    /// `unix` or `unix_socket`.
    pub kind: String,
    /// `http`, `http2` or `ws`.
    pub transport: String,
    pub secure: bool,
    pub path: String,
}

/// An upstream, as callers give it.
#[derive(Debug)]
pub enum UpstreamOptions {
    Port(PortUpstreamOptions),
    Unix(UnixSocketUpstreamOptions),
}

/// An upstream.
#[derive(Debug)]
pub struct PortUpstream {
    pub transport: TransportKind,
    /// Whether connections to it use TLS.
    pub secure: bool,
    pub hostname: String,
    pub port: u16,
}

/// The mathematical form of a [`PortUpstream`]. Upstreams that differ in nothing here are the same.
pub struct Upstream {
    pub transport: TransportKind,
    pub secure: bool,
    pub hostname: Seq<char>,
    pub port: u16,
}

impl View for PortUpstream {
    type V = Upstream;

    open spec fn view(&self) -> Upstream {
        Upstream {
            transport: self.transport,
            secure: self.secure,
            hostname: self.hostname@,
            port: self.port,
        }
    }
}

impl Clone for PortUpstream {
    fn clone(&self) -> (r: Self)
        ensures
            r == *self,
    {
        PortUpstream {
            transport: self.transport,
            secure: self.secure,
            hostname: self.hostname.clone(),
            port: self.port,
        }
    }
}

/// The transport that a name stands for.
pub open spec fn transport_named(name: Seq<char>) -> Option<TransportKind> {
    if name == "http"@ {
        Some(TransportKind::Http1)
    } else if name == "http2"@ {
        Some(TransportKind::Http2)
    } else if name == "ws"@ {
        Some(TransportKind::Ws)
    } else {
        None
    }
}

/// The failure of an upstream of a type that there is not.
pub open spec fn unsupported_type(kind: Seq<char>) -> Failure {
    generic_failure(
        codes::UNSUPPORTED_UPSTREAM_TYPE@,
        "Unsupported upstream type '"@ + kind + "'"@,
    )
}

/// The failure of an upstream.
pub open spec fn upstream_failure(upstream: UpstreamOptions) -> Option<Failure> {
    match upstream {
        UpstreamOptions::Port(port) => if port.kind@ != "port"@ {
            Some(unsupported_type(port.kind@))
        } else if transport_named(port.transport@) is None {
            Some(
                type_failure(
                    codes::INVALID_PROXY_OPTIONS@,
                    "Unknown upstream transport '"@ + port.transport@ + "'"@,
                ),
            )
        } else if port.port == 0 || port.port > 65535 {
            Some(
                type_failure(
                    codes::INVALID_PROXY_OPTIONS@,
                    "PortUpstreamOptions.port must be in range 1..=65535"@,
                ),
            )
        } else if port.hostname@.len() == 0 {
            Some(
                type_failure(
                    codes::INVALID_PROXY_OPTIONS@,
                    "PortUpstreamOptions.hostname must be non-empty"@,
                ),
            )
        } else {
            None
        },
        UpstreamOptions::Unix(unix) => if unix.kind@ != "unix"@ && unix.kind@ != "unix_socket"@ {
            Some(unsupported_type(unix.kind@))
        } else {
            Some(
                generic_failure(
                    codes::UNSUPPORTED_UPSTREAM_TYPE@,
                    "unix_socket upstreams are not supported"@,
                ),
            )
        },
    }
}

/// The upstream that options without failure ask for.
pub open spec fn upstream_kept(upstream: UpstreamOptions) -> Upstream {
    let port = upstream->Port_0;
    Upstream {
        transport: transport_named(port.transport@)->0,
        secure: port.secure,
        hostname: port.hostname@,
        port: port.port as u16,
    }
}

fn unsupported_error(kind: &str) -> (r: JsError)
    ensures
        r@ == unsupported_type(kind@),
{
    let mut message = "Unsupported upstream type '".to_owned();
    message.append(kind);
    message.append("'");
    generic_error(codes::UNSUPPORTED_UPSTREAM_TYPE, message)
}

/// Reads an upstream.
pub fn parse_port_upstream(upstream: UpstreamOptions) -> (r: Result<PortUpstream, JsError>)
    ensures
        (match r {
            Ok(kept) => upstream_failure(upstream) is None && kept@ == upstream_kept(upstream),
            Err(e) => upstream_failure(upstream) == Some(e@),
        }),
{
    match upstream {
        UpstreamOptions::Port(port) => {
            if !text::same(port.kind.as_str(), "port") {
                return Err(unsupported_error(port.kind.as_str()));
            }
            let transport = if text::same(port.transport.as_str(), "http") {
                TransportKind::Http1
            } else if text::same(port.transport.as_str(), "http2") {
                TransportKind::Http2
            } else if text::same(port.transport.as_str(), "ws") {
                TransportKind::Ws
            } else {
                let mut message = "Unknown upstream transport '".to_owned();
                message.append(port.transport.as_str());
                message.append("'");
                return throw_type_error(codes::INVALID_PROXY_OPTIONS, message);
            };
            if port.port == 0 || port.port > 65535 {
                return throw_type_error(
                    codes::INVALID_PROXY_OPTIONS,
                    "PortUpstreamOptions.port must be in range 1..=65535".to_owned(),
                );
            }
            if port.hostname.as_str().is_empty() {
                return throw_type_error(
                    codes::INVALID_PROXY_OPTIONS,
                    "PortUpstreamOptions.hostname must be non-empty".to_owned(),
                );
            }
            Ok(
                PortUpstream {
                    transport,
                    secure: port.secure,
                    hostname: port.hostname,
                    port: port.port as u16,
                },
            )
        },
        UpstreamOptions::Unix(unix) => {
            if !text::same(unix.kind.as_str(), "unix") && !text::same(
                unix.kind.as_str(),
                "unix_socket",
            ) {
                return Err(unsupported_error(unix.kind.as_str()));
            }
            Err(
                generic_error(
                    codes::UNSUPPORTED_UPSTREAM_TYPE,
                    "unix_socket upstreams are not supported".to_owned(),
                ),
            )
        },
    }
}

/// The upstreams of an application, in the order in which they were added.
pub struct UpstreamSet {
    items: Vec<PortUpstream>,
}

spec fn views(items: Seq<PortUpstream>) -> Seq<Upstream> {
    Seq::new(items.len(), |i: int| items[i]@)
}

impl View for UpstreamSet {
    type V = Seq<Upstream>;

    closed spec fn view(&self) -> Seq<Upstream> {
        views(self.items@)
    }
}

impl UpstreamSet {
    #[verifier::type_invariant]
    spec fn distinct(self) -> bool {
        views(self.items@).no_duplicates()
    }

    /// No upstreams.
    pub fn new() -> (r: Self)
        ensures
            r@ == Seq::<Upstream>::empty(),
    {
        let r = UpstreamSet { items: Vec::new() };
        assert(r@ =~= Seq::<Upstream>::empty());
        r
    }

    fn position(&self, upstream: &PortUpstream) -> (r: Option<usize>)
        ensures
            (match r {
                Some(i) => i < self.items@.len() && self@[i as int] == upstream@ && forall|j: int|
                    0 <= j < i ==> self@[j] != upstream@,
                None => !self@.contains(upstream@),
            }),
    {
        let mut i: usize = 0;
        while i < self.items.len()
            invariant
                i <= self.items@.len(),
                forall|j: int| 0 <= j < i ==> self@[j] != upstream@,
            decreases self.items@.len() - i,
        {
            let item = &self.items[i];
            assert(self@[i as int] == item@);
            if item.transport == upstream.transport && item.secure == upstream.secure && item.port
                == upstream.port && item.hostname == upstream.hostname {
                return Some(i);
            }
            i += 1;
        }
        None
    }

    /// Whether an upstream is in the set.
    pub fn contains(&self, upstream: &PortUpstream) -> (r: bool)
        ensures
            r == self@.contains(upstream@),
    {
        match self.position(upstream) {
            Some(i) => {
                assert(self@[i as int] == upstream@);
                true
            },
            None => false,
        }
    }

    /// The set with one more upstream.
    pub fn with(&self, upstream: &PortUpstream) -> (r: Self)
        requires
            !self@.contains(upstream@),
        ensures
            r@ == self@.push(upstream@),
            r@.no_duplicates(),
    {
        proof {
            use_type_invariant(self);
        }
        let mut items: Vec<PortUpstream> = Vec::new();
        let mut i: usize = 0;
        while i < self.items.len()
            invariant
                i <= self.items@.len(),
                items@ == self.items@.take(i as int),
            decreases self.items@.len() - i,
        {
            items.push(self.items[i].clone());
            i += 1;
        }
        items.push(upstream.clone());
        assert(views(items@) =~= self@.push(upstream@));
        assert(views(items@).no_duplicates()) by {
            assert forall|a: int, b: int|
                0 <= a < views(items@).len() && 0 <= b < views(items@).len() && a != b implies views(
                items@,
            )[a] != views(items@)[b] by {
                assert(forall|k: int| 0 <= k < self@.len() ==> self@.contains(#[trigger] self@[k]));
            }
        }
        UpstreamSet { items }
    }

    /// The set without an upstream.
    #[verifier::spinoff_prover]
    pub fn without(&self, upstream: &PortUpstream) -> (r: Self)
        requires
            self@.contains(upstream@),
        ensures
            r@ == self@.remove_value(upstream@),
            r@.no_duplicates(),
    {
        proof {
            use_type_invariant(self);
        }
        let at = match self.position(upstream) {
            Some(at) => at,
            None => self.items.len(),
        };
        proof {
            self@.index_of_first_ensures(upstream@);
            assert(self@.index_of_first(upstream@) == Some(at as int));
        }
        let mut items: Vec<PortUpstream> = Vec::new();
        let mut i: usize = 0;
        while i < self.items.len()
            invariant
                i <= self.items@.len(),
                at < self.items@.len(),
                items@ == (if i <= at {
                    self.items@.take(i as int)
                } else {
                    self.items@.take(i as int).remove(at as int)
                }),
            decreases self.items@.len() - i,
        {
            if i != at {
                items.push(self.items[i].clone());
            }
            assert(items@ =~= (if i + 1 <= at {
                self.items@.take(i + 1)
            } else {
                self.items@.take(i + 1).remove(at as int)
            }));
            i += 1;
        }
        assert(self.items@.take(i as int) =~= self.items@);
        assert(views(items@) =~= self@.remove(at as int));
        assert(views(items@).no_duplicates()) by {
            let all = self@;
            let rest = views(items@);
            assert forall|a: int, b: int|
                0 <= a < rest.len() && 0 <= b < rest.len() && a != b implies rest[a] != rest[b] by {
                let x = if a < at { a } else { a + 1 };
                let y = if b < at { b } else { b + 1 };
                assert(rest[a] == all[x]);
                assert(rest[b] == all[y]);
            }
        }
        UpstreamSet { items }
    }

    /// The number of upstreams.
    pub fn len(&self) -> (r: usize)
        ensures
            r == self@.len(),
    {
        self.items.len()
    }

    /// Upstream number `i`.
    pub fn get(&self, i: usize) -> (r: &PortUpstream)
        requires
            i < self@.len(),
        ensures
            r@ == self@[i as int],
    {
        &self.items[i]
    }
}

/// The name that the certificates of an application's secure upstreams must have: its subdomain,
/// or else the name that its options give.
pub open spec fn verified_name(app: App) -> Option<Seq<char>> {
    match app.route {
        Route::Subdomain(name) => Some(name),
        Route::Path(_) | Route::Default => app.sni,
    }
}

/// The rejection of secure upstreams whose name is not known.
pub open spec fn name_required() -> Rejection {
    Rejection {
        code: codes::INVALID_APPLICATION_OPTIONS@,
        message:
            "ApplicationOptions.sni is required when using secure upstreams for path/default routing"@,
    }
}

/// The name that the certificates of an application's secure upstreams must have.
pub fn verify_hostname_for_secure_upstream(app: &ApplicationOptionsParsed) -> (r: Result<
    String,
    DeferredJsError,
>)
    ensures
        (match r {
            Ok(name) => verified_name(app@) == Some(name@),
            Err(e) => verified_name(app@) is None && e@ == name_required(),
        }),
{
    match &app.routing {
        ApplicationRoutingParsed::Subdomain { name } => Ok(name.clone()),
        ApplicationRoutingParsed::Path { .. } | ApplicationRoutingParsed::Default => match &app.sni {
            Some(sni) => Ok(sni.clone()),
            None => Err(
                DeferredJsError::type_error(
                    codes::INVALID_APPLICATION_OPTIONS,
                    "ApplicationOptions.sni is required when using secure upstreams for path/default routing".to_owned(),
                ),
            ),
        },
    }
}

/// Where an upstream is found.
#[derive(Debug)]
pub struct Target {
    pub hostname: String,
    pub port: u16,
}

/// The mathematical form of a [`Target`].
pub struct Place {
    pub hostname: Seq<char>,
    pub port: u16,
}

impl View for Target {
    type V = Place;

    open spec fn view(&self) -> Place {
        Place { hostname: self.hostname@, port: self.port }
    }
}

/// A pool that is to be made: of which upstreams, and how they are connected to.
#[derive(Debug)]
pub struct PoolPlan {
    pub transport: TransportKind,
    pub secure: bool,
    pub verify_hostname: String,
    pub targets: Vec<Target>,
}

/// The mathematical form of a [`PoolPlan`].
#[verifier::ext_equal]
pub struct Plan {
    pub transport: TransportKind,
    pub secure: bool,
    pub verify_hostname: Seq<char>,
    pub targets: Seq<Place>,
}

/// The mathematical form of a list of targets.
pub open spec fn places(targets: Seq<Target>) -> Seq<Place> {
    Seq::new(targets.len(), |i: int| targets[i]@)
}

impl View for PoolPlan {
    type V = Plan;

    open spec fn view(&self) -> Plan {
        Plan {
            transport: self.transport,
            secure: self.secure,
            verify_hostname: self.verify_hostname@,
            targets: places(self.targets@),
        }
    }
}

/// The mathematical form of a list of plans.
pub open spec fn plan_views(plans: Seq<PoolPlan>) -> Seq<Plan> {
    Seq::new(plans.len(), |i: int| plans[i]@)
}

/// The upstreams of one transport.
pub open spec fn group(upstreams: Seq<Upstream>, transport: TransportKind) -> Seq<Upstream> {
    upstreams.filter(|u: Upstream| u.transport == transport)
}

/// Whether some of the upstreams are secure and some are not.
pub open spec fn mixed(upstreams: Seq<Upstream>) -> bool {
    exists|i: int| 0 <= i < upstreams.len() && (#[trigger] upstreams[i]).secure != upstreams[0].secure
}

/// Where each of the upstreams is found.
pub open spec fn places_of(upstreams: Seq<Upstream>) -> Seq<Place> {
    Seq::new(
        upstreams.len(),
        |i: int| Place { hostname: upstreams[i].hostname, port: upstreams[i].port },
    )
}

/// The rejection of a pool of secure and insecure upstreams.
pub open spec fn mixing_rejected() -> Rejection {
    Rejection {
        code: codes::INVALID_PROXY_OPTIONS@,
        message:
            "Mixing secure and insecure upstreams within the same (app, transport) pool is not supported"@,
    }
}

/// The pool of an application's upstreams of one transport, if there are any.
pub open spec fn pool_planned(
    app: App,
    upstreams: Seq<Upstream>,
    transport: TransportKind,
) -> Result<Option<Plan>, Rejection> {
    let members = group(upstreams, transport);
    if members.len() == 0 {
        Ok(None)
    } else if mixed(members) {
        Err(mixing_rejected())
    } else if members[0].secure && verified_name(app) is None {
        Err(name_required())
    } else {
        Ok(
            Some(
                Plan {
                    transport,
                    secure: members[0].secure,
                    verify_hostname: if members[0].secure {
                        verified_name(app)->0
                    } else {
                        Seq::empty()
                    },
                    targets: places_of(members),
                },
            ),
        )
    }
}

proof fn lemma_group_step(upstreams: Seq<Upstream>, transport: TransportKind, i: int)
    requires
        0 <= i < upstreams.len(),
    ensures
        group(upstreams.take(i + 1), transport) == (if upstreams[i].transport == transport {
            group(upstreams.take(i), transport).push(upstreams[i])
        } else {
            group(upstreams.take(i), transport)
        }),
{
    reveal(Seq::filter);
    assert(upstreams.take(i + 1).drop_last() =~= upstreams.take(i));
}

/// Plans the pool of an application's upstreams of one transport, if there are any.
pub fn plan_pool(
    app: &ApplicationOptionsParsed,
    upstreams: &UpstreamSet,
    transport: TransportKind,
) -> (r: Result<Option<PoolPlan>, DeferredJsError>)
    ensures
        pool_planned(app@, upstreams@, transport) == (match r {
            Ok(Some(plan)) => Ok(Some(plan@)),
            Ok(None) => Ok(None),
            Err(e) => Err(e@),
        }),
{
    let ghost all = upstreams@;
    let mut targets: Vec<Target> = Vec::new();
    let mut secure = false;
    let mut is_mixed = false;
    let mut i: usize = 0;
    proof {
        reveal(Seq::filter);
        assert(group(all.take(0), transport) =~= Seq::<Upstream>::empty());
    }
    while i < upstreams.len()
        invariant
            i <= all.len(),
            all == upstreams@,
            places(targets@) == places_of(group(all.take(i as int), transport)),
            targets@.len() > 0 ==> secure == group(all.take(i as int), transport)[0].secure,
            is_mixed == mixed(group(all.take(i as int), transport)),
        decreases all.len() - i,
    {
        let upstream = upstreams.get(i);
        let ghost before = group(all.take(i as int), transport);
        let ghost after = group(all.take(i + 1), transport);
        proof {
            lemma_group_step(all, transport, i as int);
            assert(places(targets@).len() == before.len());
        }
        if upstream.transport == transport {
            if targets.len() == 0 {
                secure = upstream.secure;
            } else if upstream.secure != secure {
                is_mixed = true;
                assert(after[before.len() as int].secure != after[0].secure);
            }
            let ghost targets0 = targets@;
            targets.push(Target { hostname: upstream.hostname.clone(), port: upstream.port });
            assert(places(targets@) =~= places(targets0).push(
                Place { hostname: upstream@.hostname, port: upstream@.port },
            ));
            assert(places_of(after) =~= places_of(before).push(
                Place { hostname: upstream@.hostname, port: upstream@.port },
            ));
            assert(is_mixed == mixed(after)) by {
                if mixed(before) {
                    let k = choose|k: int|
                        0 <= k < before.len() && (#[trigger] before[k]).secure != before[0].secure;
                    assert(after[k].secure != after[0].secure);
                }
                if mixed(after) {
                    let k = choose|k: int|
                        0 <= k < after.len() && (#[trigger] after[k]).secure != after[0].secure;
                    if k < before.len() {
                        assert(before[k].secure != before[0].secure);
                    }
                }
            }
        }
        i += 1;
    }
    assert(all.take(i as int) =~= all);
    assert(places(targets@).len() == group(all, transport).len());
    if targets.len() == 0 {
        return Ok(None);
    }
    if is_mixed {
        return Err(
            DeferredJsError::type_error(
                codes::INVALID_PROXY_OPTIONS,
                "Mixing secure and insecure upstreams within the same (app, transport) pool is not supported".to_owned(),
            ),
        );
    }
    let verify_hostname = if secure {
        match verify_hostname_for_secure_upstream(app) {
            Ok(name) => name,
            Err(e) => return Err(e),
        }
    } else {
        String::new()
    };
    Ok(Some(PoolPlan { transport, secure, verify_hostname, targets }))
}

/// The transports, in the order in which pools are planned.
pub open spec fn transports() -> Seq<TransportKind> {
    seq![TransportKind::Http1, TransportKind::Http2, TransportKind::Ws]
}

/// The pools of an application for the first `n` transports.
pub open spec fn plans_upto(app: App, upstreams: Seq<Upstream>, n: int) -> Result<
    Seq<Plan>,
    Rejection,
>
    decreases n,
{
    if n <= 0 {
        Ok(Seq::empty())
    } else {
        match plans_upto(app, upstreams, n - 1) {
            Err(e) => Err(e),
            Ok(plans) => match pool_planned(app, upstreams, transports()[n - 1]) {
                Err(e) => Err(e),
                Ok(None) => Ok(plans),
                Ok(Some(plan)) => Ok(plans.push(plan)),
            },
        }
    }
}

/// The pools of an application: one for each transport that has upstreams.
pub open spec fn pools_planned(app: App, upstreams: Seq<Upstream>) -> Result<Seq<Plan>, Rejection> {
    plans_upto(app, upstreams, 3)
}

/// Plans the pools of an application.
pub fn plan_app_pools(app: &ApplicationOptionsParsed, upstreams: &UpstreamSet) -> (r: Result<
    Vec<PoolPlan>,
    DeferredJsError,
>)
    ensures
        pools_planned(app@, upstreams@) == (match r {
            Ok(plans) => Ok(plan_views(plans@)),
            Err(e) => Err(e@),
        }),
{
    let mut plans: Vec<PoolPlan> = Vec::new();
    // Which pool is planned first matters only to which of several rejections is given.
    let order = [TransportKind::Http1, TransportKind::Http2, TransportKind::Ws];
    let mut i: usize = 0;
    assert(plan_views(plans@) =~= Seq::<Plan>::empty());
    while i < 3
        invariant
            i <= 3,
            order@ == transports(),
            plans_upto(app@, upstreams@, i as int) == Ok::<Seq<Plan>, Rejection>(
                plan_views(plans@),
            ),
        decreases 3 - i,
    {
        match plan_pool(app, upstreams, order[i]) {
            Ok(Some(plan)) => {
                let ghost before = plans@;
                plans.push(plan);
                assert(plan_views(plans@) =~= plan_views(before).push(plan@));
            },
            Ok(None) => {},
            Err(e) => {
                proof {
                    reveal_with_fuel(plans_upto, 4);
                }
                return Err(e);
            },
        }
        i += 1;
    }
    Ok(plans)
}

/// What came of looking up a target: its addresses, or the reason why there are none.
pub open spec fn resolution(r: Result<Vec<String>, String>) -> Result<Seq<Seq<char>>, Seq<char>> {
    match r {
        Ok(addresses) => Ok(address_texts(addresses@)),
        Err(reason) => Err(reason@),
    }
}

/// The characters of a list of addresses.
pub open spec fn address_texts(addresses: Seq<String>) -> Seq<Seq<char>> {
    Seq::new(addresses.len(), |i: int| addresses[i]@)
}

/// The rejection of a target that has no addresses.
pub open spec fn unresolved(target: Place, reason: Seq<char>) -> Rejection {
    Rejection {
        code: codes::INVALID_PROXY_OPTIONS@,
        message: "Failed to resolve upstream '"@ + target.hostname + ":"@ + text::numeral(
            target.port as nat,
            10,
        ) + "': "@ + reason,
    }
}

fn resolve_error(target: &Target, reason: &str) -> (r: DeferredJsError)
    ensures
        r@ == unresolved(target@, reason@),
{
    let mut message = "Failed to resolve upstream '".to_owned();
    message.append(target.hostname.as_str());
    message.append(":");
    message.append(text::to_numeral(target.port as u128, 10).as_str());
    message.append("': ");
    message.append(reason);
    DeferredJsError::type_error(codes::INVALID_PROXY_OPTIONS, message)
}

/// The addresses of the first `n` targets together.
pub open spec fn gathered(
    targets: Seq<Place>,
    resolved: Seq<Result<Vec<String>, String>>,
    n: int,
) -> Result<Seq<Seq<char>>, Rejection>
    decreases n,
{
    if n <= 0 {
        Ok(Seq::empty())
    } else {
        match gathered(targets, resolved, n - 1) {
            Err(e) => Err(e),
            Ok(addresses) => match resolution(resolved[n - 1]) {
                Err(reason) => Err(unresolved(targets[n - 1], reason)),
                Ok(more) => Ok(addresses + more),
            },
        }
    }
}

/// The addresses of a pool: those of all its targets, of which there must be one.
pub open spec fn pool_resolved(plan: Plan, resolved: Seq<Result<Vec<String>, String>>) -> Result<
    Seq<Seq<char>>,
    Rejection,
> {
    match gathered(plan.targets, resolved, resolved.len() as int) {
        Err(e) => Err(e),
        Ok(addresses) => if addresses.len() == 0 {
            Err(unresolved(plan.targets[0], "no addresses were returned"@))
        } else {
            Ok(addresses)
        },
    }
}

/// Whether the targets were looked up one by one, up to the last or up to one that failed.
pub open spec fn looked_up(plan: Plan, resolved: Seq<Result<Vec<String>, String>>) -> bool {
    &&& 0 < resolved.len() <= plan.targets.len()
    &&& resolved.len() == plan.targets.len() || resolved.last() is Err
}

/// Puts together the addresses of a pool, given what came of looking up its targets in turn.
pub fn pool_addresses(plan: &PoolPlan, resolved: Vec<Result<Vec<String>, String>>) -> (r: Result<
    Vec<String>,
    DeferredJsError,
>)
    requires
        looked_up(plan@, resolved@),
    ensures
        pool_resolved(plan@, resolved@) == (match r {
            Ok(addresses) => Ok(address_texts(addresses@)),
            Err(e) => Err(e@),
        }),
{
    let ghost all = resolved@;
    let ghost targets = plan@.targets;
    let mut addresses: Vec<String> = Vec::new();
    let count = plan.targets.len();
    let mut n: usize = 0;
    assert(address_texts(addresses@) =~= Seq::<Seq<char>>::empty());
    for item in it: resolved
        invariant
            n == it.index(),
            it.seq() == all,
            targets == plan@.targets,
            all.len() <= count == targets.len(),
            gathered(targets, all, it.index() as int) == Ok::<Seq<Seq<char>>, Rejection>(
                address_texts(addresses@),
            ),
    {
        match item {
            Ok(found) => {
                let ghost before = addresses@;
                let mut found = found;
                let ghost more = found@;
                addresses.append(&mut found);
                assert(address_texts(addresses@) =~= address_texts(before) + address_texts(more));
            },
            Err(reason) => {
                proof {
                    lemma_gathering_ends(targets, all, n as int, all.len() as int);
                }
                return Err(resolve_error(&plan.targets[n], reason.as_str()));
            },
        }
        n += 1;
    }
    if addresses.len() == 0 {
        assert(address_texts(addresses@).len() == 0);
        return Err(resolve_error(&plan.targets[0], "no addresses were returned"));
    }
    assert(address_texts(addresses@).len() > 0);
    Ok(addresses)
}

proof fn lemma_gathering_ends(
    targets: Seq<Place>,
    resolved: Seq<Result<Vec<String>, String>>,
    i: int,
    n: int,
)
    requires
        0 <= i < n <= resolved.len(),
        gathered(targets, resolved, i + 1) is Err,
    ensures
        gathered(targets, resolved, n) == gathered(targets, resolved, i + 1),
    decreases n,
{
    if n > i + 1 {
        lemma_gathering_ends(targets, resolved, i, n - 1);
    }
}

} // verus!
