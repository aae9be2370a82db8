//! What holds of upstreams and of the pools that are made of them, said of what callers give.

use vstd::prelude::*;
use vstd::string::*;

use super::{
    address_texts, gathered, group, mixed, parse_port_upstream, places, places_of, plan_app_pools,
    plan_pool, plan_views, plans_upto, pool_addresses, pool_planned, pools_planned, transports,
    verified_name, verify_hostname_for_secure_upstream, Plan, PoolPlan, PortUpstream, Target,
    Upstream, UpstreamOptions, UpstreamSet,
};
use crate::errors::{ErrorClass, JsError};
use crate::lb::TransportKind;
use crate::options::{ApplicationOptionsParsed, ApplicationRoutingParsed};
use crate::proxy::lifecycle::{DeferredJsError, Rejection};
use crate::text;

verus! {

/// Whether an error has this class, code and message.
pub open spec fn tells(e: JsError, class: ErrorClass, code: Seq<char>, message: Seq<char>) -> bool {
    e.class == class && e.code@ == code && e.message@ == message
}

/// Whether a rejection has this code and message.
pub open spec fn rejects(e: DeferredJsError, code: Seq<char>, message: Seq<char>) -> bool {
    e.code@ == code && e.message@ == message
}

/// Whether a name stands for a transport.
pub open spec fn transport_is(name: Seq<char>, transport: TransportKind) -> bool {
    match transport {
        TransportKind::Http1 => name == "http"@,
        TransportKind::Http2 => name == "http2"@,
        TransportKind::Ws => name == "ws"@,
    }
}

/// An upstream that is accepted is the one that the caller gave: its transport is the named one, and
/// its security, hostname and port are the given ones. It is refused where its type is not `port`,
/// its transport has no such name, its port is not one, or its hostname is empty.
pub proof fn law_port_upstreams(upstream: UpstreamOptions, r: Result<PortUpstream, JsError>)
    requires
        call_ensures(parse_port_upstream, (upstream,), r),
    ensures
        match upstream {
            UpstreamOptions::Port(given) => {
                let named = given.transport@ == "http"@ || given.transport@ == "http2"@
                    || given.transport@ == "ws"@;
                if given.kind@ != "port"@ {
                    r is Err && tells(
                        r->Err_0,
                        ErrorClass::Error,
                        "UnsupportedUpstreamType"@,
                        "Unsupported upstream type '"@ + given.kind@ + "'"@,
                    )
                } else if !named {
                    r is Err && tells(
                        r->Err_0,
                        ErrorClass::TypeError,
                        "InvalidProxyOptions"@,
                        "Unknown upstream transport '"@ + given.transport@ + "'"@,
                    )
                } else if given.port < 1 || given.port > 65535 {
                    r is Err && tells(
                        r->Err_0,
                        ErrorClass::TypeError,
                        "InvalidProxyOptions"@,
                        "PortUpstreamOptions.port must be in range 1..=65535"@,
                    )
                } else if given.hostname@.len() == 0 {
                    r is Err && tells(
                        r->Err_0,
                        ErrorClass::TypeError,
                        "InvalidProxyOptions"@,
                        "PortUpstreamOptions.hostname must be non-empty"@,
                    )
                } else {
                    &&& r is Ok
                    &&& transport_is(given.transport@, r->Ok_0.transport)
                    &&& r->Ok_0.secure == given.secure
                    &&& r->Ok_0.hostname@ == given.hostname@
                    &&& r->Ok_0.port == given.port
                }
            },
            UpstreamOptions::Unix(given) => {
                &&& r is Err
                &&& r->Err_0.class == ErrorClass::Error
                &&& r->Err_0.code@ == "UnsupportedUpstreamType"@
                &&& given.kind@ == "unix"@ || given.kind@ == "unix_socket"@ ==> r->Err_0.message@
                    == "unix_socket upstreams are not supported"@
                &&& given.kind@ != "unix"@ && given.kind@ != "unix_socket"@ ==> r->Err_0.message@
                    == "Unsupported upstream type '"@ + given.kind@ + "'"@
            },
        },
{
}

/// The names of the transports differ.
pub proof fn law_transports_are_told_apart(name: Seq<char>, a: TransportKind, b: TransportKind)
    requires
        transport_is(name, a),
        transport_is(name, b),
    ensures
        a == b,
{
    reveal_strlit("http");
    reveal_strlit("http2");
    reveal_strlit("ws");
    assert("http"@.len() == 4 && "http2"@.len() == 5 && "ws"@.len() == 2);
}

/// Upstreams are the same where their transport, security, hostname and port are.
pub proof fn law_upstreams_are_told_apart(a: PortUpstream, b: PortUpstream)
    ensures
        a@ == b@ <==> a.transport == b.transport && a.secure == b.secure && a.hostname@
            == b.hostname@ && a.port == b.port,
{
}

/// A set of upstreams holds what was put into it, in the order in which it was, and no longer what
/// was taken out.
pub proof fn law_upstream_sets(
    set: &UpstreamSet,
    upstream: &PortUpstream,
    more: UpstreamSet,
    fewer: UpstreamSet,
    other: Upstream,
)
    requires
        !set@.contains(upstream@),
        call_ensures(UpstreamSet::with, (set, upstream), more),
        call_ensures(UpstreamSet::without, (&more, upstream), fewer),
    ensures
        more@.len() == set@.len() + 1,
        more@.last() == upstream@,
        forall|i: int| 0 <= i < set@.len() ==> more@[i] == set@[i],
        other != upstream@ ==> (more@.contains(other) <==> set@.contains(other)),
        fewer@ == set@,
{
    let all = more@;
    assert(all[set@.len() as int] == upstream@);
    if set@.contains(other) {
        let i = choose|i: int| 0 <= i < set@.len() && set@[i] == other;
        assert(all[i] == other);
    }
    if all.contains(other) && other != upstream@ {
        let i = choose|i: int| 0 <= i < all.len() && all[i] == other;
        assert(set@[i] == other);
    }
    all.index_of_first_ensures(upstream@);
    let at = all.index_of_first(upstream@)->0;
    assert(at == set@.len()) by {
        if at < set@.len() {
            assert(set@[at] == upstream@);
        }
    }
    assert(fewer@ =~= set@);
}

/// A set of upstreams tells what it holds.
pub proof fn law_upstreams_are_held(
    set: &UpstreamSet,
    upstream: &PortUpstream,
    held: bool,
    count: usize,
    i: usize,
    r: &PortUpstream,
    none: UpstreamSet,
)
    requires
        call_ensures(UpstreamSet::contains, (set, upstream), held),
        call_ensures(UpstreamSet::len, (set,), count),
        i < set@.len(),
        call_ensures(UpstreamSet::get, (set, i), r),
        call_ensures(UpstreamSet::new, (), none),
    ensures
        held <==> exists|k: int| 0 <= k < set@.len() && #[trigger] set@[k] == upstream@,
        count == set@.len(),
        r@ == set@[i as int],
        none@.len() == 0,
{
}

/// The name that the certificates of an application's secure upstreams must have: its subdomain, or
/// else the name that its options give.
pub open spec fn certified_name(app: ApplicationOptionsParsed) -> Option<Seq<char>> {
    match app.routing {
        ApplicationRoutingParsed::Subdomain { name } => Some(name@),
        _ => match app.sni {
            Some(sni) => Some(sni@),
            None => None,
        },
    }
}

/// [`verify_hostname_for_secure_upstream`] gives that name, and demands it where there is none.
pub proof fn law_verified_names(
    app: &ApplicationOptionsParsed,
    r: Result<String, DeferredJsError>,
)
    requires
        call_ensures(verify_hostname_for_secure_upstream, (app,), r),
    ensures
        match certified_name(*app) {
            Some(name) => r is Ok && r->Ok_0@ == name,
            None => r is Err && rejects(
                r->Err_0,
                "InvalidApplicationOptions"@,
                "ApplicationOptions.sni is required when using secure upstreams for path/default routing"@,
            ),
        },
{
}

/// Whether a target is where an upstream is.
pub open spec fn found_at(target: Target, upstream: Upstream) -> bool {
    target.hostname@ == upstream.hostname && target.port == upstream.port
}

/// How many upstreams are of a transport.
pub open spec fn count_of(upstreams: Seq<Upstream>, t: TransportKind) -> nat
    decreases upstreams.len(),
{
    if upstreams.len() == 0 {
        0
    } else if upstreams.last().transport == t {
        count_of(upstreams.drop_last(), t) + 1
    } else {
        count_of(upstreams.drop_last(), t)
    }
}

proof fn lemma_group_count(upstreams: Seq<Upstream>, t: TransportKind)
    ensures
        group(upstreams, t).len() == count_of(upstreams, t),
    decreases upstreams.len(),
{
    reveal(Seq::filter);
    if upstreams.len() > 0 {
        lemma_group_count(upstreams.drop_last(), t);
    }
}

/// Whether a target is where some upstream of a transport is.
pub open spec fn is_upstream(
    upstreams: Seq<Upstream>,
    transport: TransportKind,
    target: Target,
) -> bool {
    exists|i: int|
        0 <= i < upstreams.len() && (#[trigger] upstreams[i]).transport == transport && found_at(
            target,
            upstreams[i],
        )
}

/// Whether a plan is for the upstreams of its transport: each of them once and no others, connected
/// to with TLS exactly where they are secure, and then certified by the application's name.
#[verifier::opaque]
pub open spec fn plan_serves(
    app: ApplicationOptionsParsed,
    upstreams: Seq<Upstream>,
    plan: PoolPlan,
) -> bool {
    &&& plan.targets@.len() > 0
    &&& plan.targets@.len() == count_of(upstreams, plan.transport)
    &&& forall|i: int|
        0 <= i < upstreams.len() && (#[trigger] upstreams[i]).transport == plan.transport
            ==> upstreams[i].secure == plan.secure && exists|k: int|
            0 <= k < plan.targets@.len() && found_at(#[trigger] plan.targets@[k], upstreams[i])
    &&& forall|k: int|
        0 <= k < plan.targets@.len() ==> is_upstream(
            upstreams,
            plan.transport,
            #[trigger] plan.targets@[k],
        )
    &&& plan.secure ==> certified_name(app) == Some(plan.verify_hostname@)
    &&& !plan.secure ==> plan.verify_hostname@.len() == 0
}

/// The upstreams of a transport are in its group.
pub proof fn lemma_in_group(upstreams: Seq<Upstream>, t: TransportKind, i: int) -> (k: int)
    requires
        0 <= i < upstreams.len(),
        upstreams[i].transport == t,
    ensures
        0 <= k < group(upstreams, t).len(),
        group(upstreams, t)[k] == upstreams[i],
{
    let keep = |u: Upstream| u.transport == t;
    let members = group(upstreams, t);
    assert(members == upstreams.filter(keep));
    upstreams.lemma_filter_contains(keep, i);
    choose|k: int| 0 <= k < members.len() && members[k] == upstreams[i]
}

/// What is in a transport's group is an upstream of that transport.
pub proof fn lemma_from_group(upstreams: Seq<Upstream>, t: TransportKind, k: int) -> (i: int)
    requires
        0 <= k < group(upstreams, t).len(),
    ensures
        0 <= i < upstreams.len(),
        upstreams[i] == group(upstreams, t)[k],
        upstreams[i].transport == t,
{
    let keep = |u: Upstream| u.transport == t;
    let members = group(upstreams, t);
    assert(members == upstreams.filter(keep));
    upstreams.lemma_filter_pred(keep, k);
    assert(members.contains(members[k]));
    upstreams.lemma_filter_contains_rev(keep, members[k]);
    choose|i: int| 0 <= i < upstreams.len() && upstreams[i] == members[k]
}

/// Whether secure and insecure upstreams of a transport are mixed.
pub open spec fn mixes(upstreams: Seq<Upstream>, t: TransportKind) -> bool {
    exists|i: int, j: int|
        0 <= i < upstreams.len() && 0 <= j < upstreams.len() && (#[trigger] upstreams[i]).transport
            == t && (#[trigger] upstreams[j]).transport == t && upstreams[i].secure
            && !upstreams[j].secure
}

/// Whether some upstream is of a transport.
pub open spec fn uses(upstreams: Seq<Upstream>, t: TransportKind) -> bool {
    exists|i: int| 0 <= i < upstreams.len() && (#[trigger] upstreams[i]).transport == t
}

/// Whether some upstream of a transport is secure.
pub open spec fn uses_tls(upstreams: Seq<Upstream>, t: TransportKind) -> bool {
    exists|i: int|
        0 <= i < upstreams.len() && (#[trigger] upstreams[i]).transport == t
            && upstreams[i].secure
}

proof fn lemma_pool_planned(
    app: ApplicationOptionsParsed,
    upstreams: Seq<Upstream>,
    t: TransportKind,
)
    ensures
        ({
            let planned = pool_planned(app@, upstreams, t);
            &&& planned is Ok && planned->Ok_0 is None <==> !uses(upstreams, t)
            &&& mixes(upstreams, t) ==> planned == Err::<Option<Plan>, Rejection>(
                super::mixing_rejected(),
            )
            &&& !mixes(upstreams, t) && uses_tls(upstreams, t) && certified_name(app) is None
                ==> planned == Err::<Option<Plan>, Rejection>(super::name_required())
            &&& planned is Err ==> mixes(upstreams, t) || (uses_tls(upstreams, t)
                && certified_name(app) is None)
        }),
{
    let members = group(upstreams, t);
    assert(verified_name(app@) == certified_name(app));
    if uses(upstreams, t) {
        let i = choose|i: int|
            0 <= i < upstreams.len() && (#[trigger] upstreams[i]).transport == t;
        lemma_in_group(upstreams, t, i);
    }
    if mixes(upstreams, t) {
        let (i, j) = choose|i: int, j: int|
            0 <= i < upstreams.len() && 0 <= j < upstreams.len() && (
            #[trigger] upstreams[i]).transport == t && (#[trigger] upstreams[j]).transport == t
                && upstreams[i].secure && !upstreams[j].secure;
        let a = lemma_in_group(upstreams, t, i);
        let b = lemma_in_group(upstreams, t, j);
        assert(members[a].secure != members[b].secure);
        assert(mixed(members));
    }
    if mixed(members) {
        let k = choose|k: int|
            0 <= k < members.len() && (#[trigger] members[k]).secure != members[0].secure;
        let i = lemma_from_group(upstreams, t, k);
        let j = lemma_from_group(upstreams, t, 0);
        assert(upstreams[i].transport == t && upstreams[j].transport == t);
        assert(mixes(upstreams, t));
    }
    if members.len() > 0 {
        let j = lemma_from_group(upstreams, t, 0);
        assert(upstreams[j].transport == t);
        if !mixed(members) && uses_tls(upstreams, t) {
            let i = choose|i: int|
                0 <= i < upstreams.len() && (#[trigger] upstreams[i]).transport == t
                    && upstreams[i].secure;
            let a = lemma_in_group(upstreams, t, i);
            assert(members[a].secure == members[0].secure);
        }
    }
}

proof fn lemma_plan_serves(
    app: ApplicationOptionsParsed,
    upstreams: Seq<Upstream>,
    t: TransportKind,
    plan: PoolPlan,
)
    requires
        pool_planned(app@, upstreams, t) == Ok::<Option<Plan>, Rejection>(Some(plan@)),
    ensures
        plan.transport == t,
        plan_serves(app, upstreams, plan),
{
    reveal(plan_serves);
    lemma_group_count(upstreams, t);
    let members = group(upstreams, t);
    let targets = plan.targets@;
    assert(plan@.targets == places(targets));
    assert(plan@.targets == places_of(members));
    assert(targets.len() == places(targets).len());
    assert(members.len() == places_of(members).len());
    assert(verified_name(app@) == certified_name(app));
    assert forall|k: int| 0 <= k < targets.len() implies found_at(
        #[trigger] targets[k],
        members[k],
    ) by {
        assert(places(targets)[k] == targets[k]@);
        assert(places(targets)[k] == places_of(members)[k]);
    }
    assert forall|i: int| 0 <= i < upstreams.len() && (#[trigger] upstreams[i]).transport
        == plan.transport implies upstreams[i].secure == plan.secure && exists|k: int|
        0 <= k < targets.len() && found_at(#[trigger] targets[k], upstreams[i]) by {
        let k = lemma_in_group(upstreams, t, i);
        assert(members[k].secure == members[0].secure);
        assert(found_at(targets[k], members[k]));
    }
    assert forall|k: int| 0 <= k < targets.len() implies is_upstream(
        upstreams,
        plan.transport,
        #[trigger] targets[k],
    ) by {
        let i = lemma_from_group(upstreams, t, k);
        assert(found_at(targets[k], members[k]));
        assert(upstreams[i].transport == t && found_at(targets[k], upstreams[i]));
    }
}

/// A pool is planned for each transport that upstreams use: of all of them and no others. Where
/// secure and insecure ones are mixed, or secure ones have no name to be certified by, none is.
pub proof fn law_plan_pool(
    app: &ApplicationOptionsParsed,
    upstreams: &UpstreamSet,
    transport: TransportKind,
    r: Result<Option<PoolPlan>, DeferredJsError>,
)
    requires
        call_ensures(plan_pool, (app, upstreams, transport), r),
    ensures
        mixes(upstreams@, transport) ==> r is Err && rejects(
            r->Err_0,
            "InvalidProxyOptions"@,
            "Mixing secure and insecure upstreams within the same (app, transport) pool is not supported"@,
        ),
        !mixes(upstreams@, transport) && uses_tls(upstreams@, transport) && certified_name(
            *app,
        ) is None ==> r is Err && rejects(
            r->Err_0,
            "InvalidApplicationOptions"@,
            "ApplicationOptions.sni is required when using secure upstreams for path/default routing"@,
        ),
        r is Err ==> mixes(upstreams@, transport) || (uses_tls(upstreams@, transport)
            && certified_name(*app) is None),
        r is Ok ==> (r->Ok_0 is Some <==> uses(upstreams@, transport)),
        r is Ok && r->Ok_0 is Some ==> (r->Ok_0->0).transport == transport && plan_serves(
            *app,
            upstreams@,
            r->Ok_0->0,
        ),
{
    lemma_pool_planned(*app, upstreams@, transport);
    if r is Ok && r->Ok_0 is Some {
        lemma_plan_serves(*app, upstreams@, transport, r->Ok_0->0);
    }
}

/// The pools of an application are one for each transport that its upstreams use, and each serves
/// its upstreams. Planning fails where it does for some transport.
pub proof fn law_plan_app_pools(
    app: &ApplicationOptionsParsed,
    upstreams: &UpstreamSet,
    r: Result<Vec<PoolPlan>, DeferredJsError>,
    t: TransportKind,
)
    requires
        call_ensures(plan_app_pools, (app, upstreams), r),
    ensures
        r matches Ok(plans) ==> {
            &&& forall|i: int|
                0 <= i < plans@.len() ==> plan_serves(*app, upstreams@, #[trigger] plans@[i])
            &&& forall|i: int, j: int|
                0 <= i < j < plans@.len() ==> (#[trigger] plans@[i]).transport != (
                #[trigger] plans@[j]).transport
            &&& uses(upstreams@, t) <==> exists|i: int|
                0 <= i < plans@.len() && (#[trigger] plans@[i]).transport == t
            &&& !mixes(upstreams@, t)
            &&& uses_tls(upstreams@, t) ==> certified_name(*app) is Some
        },
        r matches Err(e) ==> {
            let mixing = mixes(upstreams@, TransportKind::Http1) || mixes(
                upstreams@,
                TransportKind::Http2,
            ) || mixes(upstreams@, TransportKind::Ws);
            let unnamed = certified_name(*app) is None && (uses_tls(
                upstreams@,
                TransportKind::Http1,
            ) || uses_tls(upstreams@, TransportKind::Http2) || uses_tls(
                upstreams@,
                TransportKind::Ws,
            ));
            (mixing && rejects(
                e,
                "InvalidProxyOptions"@,
                "Mixing secure and insecure upstreams within the same (app, transport) pool is not supported"@,
            )) || (unnamed && rejects(
                e,
                "InvalidApplicationOptions"@,
                "ApplicationOptions.sni is required when using secure upstreams for path/default routing"@,
            ))
        },
{
    lemma_servable(*app, upstreams@);
    if let Ok(plans) = r {
        lemma_plans_serve(*app, upstreams@, plans@);
    }
}

/// Whether something stands in the way of planning the pools of an application.
pub open spec fn hindered(app: ApplicationOptionsParsed, upstreams: Seq<Upstream>) -> bool {
    ||| mixes(upstreams, TransportKind::Http1)
    ||| mixes(upstreams, TransportKind::Http2)
    ||| mixes(upstreams, TransportKind::Ws)
    ||| certified_name(app) is None && (uses_tls(upstreams, TransportKind::Http1) || uses_tls(
        upstreams,
        TransportKind::Http2,
    ) || uses_tls(upstreams, TransportKind::Ws))
}

/// Planning succeeds exactly where nothing stands in its way.
pub proof fn lemma_servable(app: ApplicationOptionsParsed, upstreams: Seq<Upstream>)
    ensures
        pools_planned(app@, upstreams) is Ok <==> !hindered(app, upstreams),
        pools_planned(app@, upstreams) matches Err(e) ==> {
            let mixing = mixes(upstreams, TransportKind::Http1) || mixes(
                upstreams,
                TransportKind::Http2,
            ) || mixes(upstreams, TransportKind::Ws);
            let unnamed = certified_name(app) is None && (uses_tls(
                upstreams,
                TransportKind::Http1,
            ) || uses_tls(upstreams, TransportKind::Http2) || uses_tls(
                upstreams,
                TransportKind::Ws,
            ));
            (mixing && e == super::mixing_rejected()) || (unnamed && e == super::name_required())
        },
{
    reveal_with_fuel(plans_upto, 4);
    assert(transports()[0] == TransportKind::Http1);
    assert(transports()[1] == TransportKind::Http2);
    assert(transports()[2] == TransportKind::Ws);
    lemma_pool_planned(app, upstreams, TransportKind::Http1);
    lemma_pool_planned(app, upstreams, TransportKind::Http2);
    lemma_pool_planned(app, upstreams, TransportKind::Ws);
}

/// The plans of an application serve its upstreams, one for each transport that they use.
pub proof fn lemma_plans_serve(
    app: ApplicationOptionsParsed,
    ups: Seq<Upstream>,
    plans: Seq<PoolPlan>,
)
    requires
        pools_planned(app@, ups) == Ok::<Seq<Plan>, Rejection>(plan_views(plans)),
    ensures
        forall|i: int| 0 <= i < plans.len() ==> plan_serves(app, ups, #[trigger] plans[i]),
        forall|i: int, j: int|
            0 <= i < j < plans.len() ==> (#[trigger] plans[i]).transport != (
            #[trigger] plans[j]).transport,
        forall|t: TransportKind| #[trigger]
            uses(ups, t) <==> exists|i: int|
                0 <= i < plans.len() && (#[trigger] plans[i]).transport == t,
        !hindered(app, ups),
{
    reveal_with_fuel(plans_upto, 4);
    assert(transports()[0] == TransportKind::Http1);
    assert(transports()[1] == TransportKind::Http2);
    assert(transports()[2] == TransportKind::Ws);
    lemma_servable(app, ups);
    lemma_pool_planned(app, ups, TransportKind::Http1);
    lemma_pool_planned(app, ups, TransportKind::Http2);
    lemma_pool_planned(app, ups, TransportKind::Ws);
    let views = plan_views(plans);
    let a = pool_planned(app@, ups, TransportKind::Http1)->Ok_0;
    let b = pool_planned(app@, ups, TransportKind::Http2)->Ok_0;
    let c = pool_planned(app@, ups, TransportKind::Ws)->Ok_0;
    let p1 = plans_upto(app@, ups, 1)->Ok_0;
    let p2 = plans_upto(app@, ups, 2)->Ok_0;
    let x: int = if a is Some {
        1
    } else {
        0
    };
    let y: int = if b is Some {
        1
    } else {
        0
    };
    let z: int = if c is Some {
        1
    } else {
        0
    };
    assert(p1.len() == x);
    assert(p2.len() == x + y);
    assert(views.len() == x + y + z);
    assert(plans.len() == views.len());
    if a is Some {
        assert(views[0] == a->0);
        assert(views[0] == plans[0]@);
        lemma_plan_serves(app, ups, TransportKind::Http1, plans[0]);
    }
    if b is Some {
        assert(views[x] == b->0);
        assert(views[x] == plans[x]@);
        lemma_plan_serves(app, ups, TransportKind::Http2, plans[x]);
    }
    if c is Some {
        assert(views[x + y] == c->0);
        assert(views[x + y] == plans[x + y]@);
        lemma_plan_serves(app, ups, TransportKind::Ws, plans[x + y]);
    }
    assert forall|i: int| 0 <= i < plans.len() implies plan_serves(app, ups, #[trigger] plans[i]) by {
        assert(i == 0 || i == 1 || i == 2);
    }
    assert forall|t: TransportKind| #[trigger] uses(ups, t) <==> exists|i: int|
        0 <= i < plans.len() && (#[trigger] plans[i]).transport == t by {
        if uses(ups, t) {
            assert(plans[match t {
                TransportKind::Http1 => 0int,
                TransportKind::Http2 => x,
                TransportKind::Ws => x + y,
            }].transport == t);
        }
    }
}

/// The addresses of what was looked up, one after the other.
pub open spec fn all_addresses(resolved: Seq<Result<Vec<String>, String>>) -> Seq<Seq<char>>
    decreases resolved.len(),
{
    if resolved.len() == 0 {
        Seq::empty()
    } else {
        all_addresses(resolved.drop_last()) + resolved.last()->Ok_0@.map_values(|a: String| a@)
    }
}

proof fn lemma_gathered(
    targets: Seq<super::Place>,
    resolved: Seq<Result<Vec<String>, String>>,
    n: int,
)
    requires
        0 <= n <= resolved.len(),
    ensures
        (forall|i: int| 0 <= i < n ==> (#[trigger] resolved[i]) is Ok) ==> gathered(
            targets,
            resolved,
            n,
        ) == Ok::<Seq<Seq<char>>, Rejection>(all_addresses(resolved.take(n))),
    decreases n,
{
    if n > 0 {
        lemma_gathered(targets, resolved, n - 1);
        assert(resolved.take(n).drop_last() =~= resolved.take(n - 1));
        assert(resolved.take(n).last() == resolved[n - 1]);
        if resolved[n - 1] is Ok {
            let found = resolved[n - 1]->Ok_0@;
            assert(address_texts(found) =~= found.map_values(|a: String| a@));
        }
    } else {
        assert(resolved.take(0) =~= Seq::empty());
    }
}

/// The addresses of a pool are those of all its targets, in turn. A target that could not be looked
/// up, or targets that have none, are told by name and port.
pub proof fn law_pool_addresses(
    plan: &PoolPlan,
    resolved: Vec<Result<Vec<String>, String>>,
    r: Result<Vec<String>, DeferredJsError>,
    n: int,
)
    requires
        call_ensures(pool_addresses, (plan, resolved), r),
        0 < resolved@.len() <= plan.targets@.len(),
        0 <= n < resolved@.len(),
        forall|i: int| 0 <= i < n ==> (#[trigger] resolved@[i]) is Ok,
    ensures
        resolved@[n] matches Err(reason) ==> r is Err && rejects(
            r->Err_0,
            "InvalidProxyOptions"@,
            "Failed to resolve upstream '"@ + plan.targets@[n].hostname@ + ":"@ + text::numeral(
                plan.targets@[n].port as nat,
                10,
            ) + "': "@ + reason@,
        ),
        n == resolved@.len() - 1 && resolved@[n] is Ok ==> {
            let all = all_addresses(resolved@);
            &&& all.len() > 0 ==> r is Ok && r->Ok_0@.map_values(|a: String| a@) == all
            &&& all.len() == 0 ==> r is Err && rejects(
                r->Err_0,
                "InvalidProxyOptions"@,
                "Failed to resolve upstream '"@ + plan.targets@[0].hostname@ + ":"@ + text::numeral(
                    plan.targets@[0].port as nat,
                    10,
                ) + "': "@ + "no addresses were returned"@,
            )
        },
{
    let all = resolved@;
    let targets = plan@.targets;
    assert(targets[n] == plan.targets@[n]@);
    assert(targets[0] == plan.targets@[0]@);
    lemma_gathered(targets, all, n);
    if all[n] is Err {
        assert(gathered(targets, all, n + 1) is Err);
        super::lemma_gathering_ends(targets, all, n, all.len() as int);
    }
    if n == all.len() - 1 && all[n] is Ok {
        lemma_gathered(targets, all, n + 1);
        assert(all.take(n + 1) =~= all);
        if r is Ok {
            assert(address_texts(r->Ok_0@) =~= r->Ok_0@.map_values(|a: String| a@));
        }
    }
}

} // verus!
