//! What holds of the applications that are accepted.

use vstd::prelude::*;

use super::{
    app_views, application_failure, applications_kept, conflict_at, conflict_from, default_count,
    default_limit_checks, first_application_failure, first_zero, hostname_like, invalid_application,
    is_hostname_like, label_ok, labels_ok, limit_checks, limit_values, limits_checks,
    limits_failure, options_failure, options_kept, parse_application_options, parse_application_sni,
    parse_limits_options, parse_nullable_positive_u32, parse_nullable_positive_u64,
    parse_nullable_positive_usize, parse_positive_u32, parse_proxy_options, parse_routing,
    parse_sticky_session_options, parse_timeout_options, require_routing_name, sni_failure,
    sticky_failure, timeouts_failure, timeouts_parsed, validate_applications, App,
    ApplicationOptions, ApplicationOptionsParsed, ApplicationRoutingParsed, ListenerTlsOptions,
    ListenerTlsOptionsParsed, Nullable, ProxyApplicationRouting, ProxyLimitCheckParsed,
    ProxyLimitsOptions, ProxyLimitsOptionsParsed, ProxyOptions, ProxyOptionsParsed,
    ProxyTimeoutOptions, ProxyTimeoutOptionsParsed, Route, StickySessionOptions,
    StickySessionOptionsParsed,
};
use crate::errors::{ErrorClass, JsError};
use crate::text;
use crate::text::laws::{
    blank, law_ascii_classes, law_small_letters_compare_without_case, law_trimmed, law_trims_to,
    only_blanks, same_but_case, trims_to,
};

verus! {

/// Whether an application's route has the form that routes must have.
pub open spec fn route_ok(route: Route) -> bool {
    match route {
        Route::Subdomain(name) => name.len() > 0,
        Route::Path(name) => name.len() > 0 && !name.contains('/'),
        Route::Default => true,
    }
}

/// Whether two applications do not get in each other's way.
pub open spec fn apart(a: App, b: App) -> bool {
    &&& a.name != b.name
    &&& match (a.route, b.route) {
        (Route::Subdomain(x), Route::Subdomain(y)) => text::lowered(x) != text::lowered(y),
        (Route::Path(x), Route::Path(y)) => x != y,
        (Route::Default, Route::Default) => false,
        _ => true,
    }
}

/// Whether the applications all have proper routes, and any two are apart.
pub open spec fn sound(apps: Seq<App>) -> bool {
    &&& forall|i: int| 0 <= i < apps.len() ==> route_ok((#[trigger] apps[i]).route)
    &&& forall|i: int, j: int|
        0 <= i < j < apps.len() ==> apart(#[trigger] apps[i], #[trigger] apps[j])
}

proof fn lemma_conflicts(apps: Seq<App>, i: int)
    requires
        0 <= i <= apps.len(),
    ensures
        conflict_from(apps, i) is None <==> default_count(apps, apps.len() as int) <= 1 && forall|
            k: int,
        | #![trigger conflict_at(apps, k)]
            i <= k < apps.len() ==> conflict_at(apps, k) is None,
    decreases apps.len() - i,
{
    if i < apps.len() {
        lemma_conflicts(apps, i + 1);
        assert(conflict_at(apps, i) is None || conflict_at(apps, i) is Some);
    }
}

proof fn lemma_defaults(apps: Seq<App>, n: int)
    requires
        0 <= n <= apps.len(),
    ensures
        default_count(apps, n) >= 0,
        default_count(apps, n) == 0 <==> forall|i: int|
            0 <= i < n ==> !((#[trigger] apps[i]).route is Default),
        default_count(apps, n) <= 1 <==> forall|i: int, j: int|
            0 <= i < j < n ==> !((#[trigger] apps[i]).route is Default && (
            #[trigger] apps[j]).route is Default),
    decreases n,
{
    if n > 0 {
        lemma_defaults(apps, n - 1);
        if default_count(apps, n) > 1 && apps[n - 1].route is Default {
            let i = choose|i: int| 0 <= i < n - 1 && (#[trigger] apps[i]).route is Default;
            assert(apps[i].route is Default && apps[n - 1].route is Default);
        }
    }
}

/// Applications are accepted exactly when each has a proper route and no two share their name,
/// their subdomain (whatever the case), their path, or the default.
pub proof fn law_accepted_applications_are_sound(apps: Seq<App>)
    ensures
        conflict_from(apps, 0) is None <==> sound(apps),
{
    lemma_conflicts(apps, 0);
    lemma_defaults(apps, apps.len() as int);
    if conflict_from(apps, 0) is None {
        assert forall|i: int| 0 <= i < apps.len() implies route_ok((#[trigger] apps[i]).route) by {
            assert(conflict_at(apps, i) is None);
        }
        assert forall|i: int, j: int| 0 <= i < j < apps.len() implies apart(
            #[trigger] apps[i],
            #[trigger] apps[j],
        ) by {
            assert(conflict_at(apps, j) is None);
        }
    }
    if sound(apps) {
        assert forall|k: int| #![trigger conflict_at(apps, k)] 0 <= k < apps.len() implies conflict_at(
            apps,
            k,
        ) is None by {
            assert(route_ok(apps[k].route));
            assert forall|j: int| 0 <= j < k implies apart(#[trigger] apps[j], apps[k]) by {}
        }
        assert forall|i: int, j: int| 0 <= i < j < apps.len() implies !((
        #[trigger] apps[i]).route is Default && (#[trigger] apps[j]).route is Default) by {
            assert(apart(apps[i], apps[j]));
        }
    }
}

/// Whether an error blames the proxy's options, with this message.
pub open spec fn blames_options(e: JsError, message: Seq<char>) -> bool {
    e.class == ErrorClass::TypeError && e.code@ == "InvalidProxyOptions"@ && e.message@ == message
}

/// Whether an error blames an application's options.
pub open spec fn blames_application(e: JsError) -> bool {
    e.class == ErrorClass::TypeError && e.code@ == "InvalidApplicationOptions"@
}

/// What an option that can be switched off asks for: a number, or nothing.
pub open spec fn asked(value: Option<Nullable<u32>>, default: int) -> Option<int> {
    match value {
        Some(Nullable::Value(v)) => Some(v as int),
        Some(Nullable::Null) => None,
        None => Some(default),
    }
}

/// What an option asks for.
pub open spec fn wanted(value: Option<u32>, default: int) -> int {
    match value {
        Some(v) => v as int,
        None => default,
    }
}

/// A number that callers give is kept as it is, a limit that they switch off is off, one that they
/// leave out has its default, and zero is refused.
pub proof fn law_numbers_are_kept(
    field: &str,
    value: Option<Nullable<u32>>,
    default: u32,
    r: Result<Option<u32>, JsError>,
    wide: Result<Option<usize>, JsError>,
    wider: Result<Option<u64>, JsError>,
    plain: Option<u32>,
    timeout: Result<u32, JsError>,
)
    requires
        call_ensures(parse_nullable_positive_u32, (field, value, default), r),
        call_ensures(parse_nullable_positive_usize, (field, value, default as usize), wide),
        call_ensures(parse_nullable_positive_u64, (field, value, default as u64), wider),
        call_ensures(parse_positive_u32, (field, plain, default), timeout),
    ensures
        match asked(value, default as int) {
            None => r == Ok::<Option<u32>, JsError>(None) && wide == Ok::<Option<usize>, JsError>(
                None,
            ) && wider == Ok::<Option<u64>, JsError>(None),
            Some(v) => if v == 0 {
                &&& r matches Err(e) && blames_options(e, field@ + " must be greater than 0"@)
                &&& wide matches Err(e) && blames_options(e, field@ + " must be greater than 0"@)
                &&& wider matches Err(e) && blames_options(e, field@ + " must be greater than 0"@)
            } else {
                &&& r == Ok::<Option<u32>, JsError>(Some(v as u32))
                &&& wide == Ok::<Option<usize>, JsError>(Some(v as usize))
                &&& wider == Ok::<Option<u64>, JsError>(Some(v as u64))
            },
        },
        if wanted(plain, default as int) == 0 {
            timeout is Err && blames_options(timeout->Err_0, field@ + " must be greater than 0"@)
        } else {
            timeout matches Ok(kept) && kept == wanted(plain, default as int)
        },
{
}

/// One check for a limit, or none where it is off.
pub open spec fn check_of(
    limit: Option<int>,
    check: spec_fn(int) -> ProxyLimitCheckParsed,
) -> Seq<ProxyLimitCheckParsed> {
    match limit {
        Some(v) => seq![check(v)],
        None => Seq::empty(),
    }
}

/// The checks of five limits, in the order in which they are made.
pub open spec fn checks_of(
    uri: Option<int>,
    headers: Option<int>,
    header: Option<int>,
    head: Option<int>,
    body: Option<int>,
) -> Seq<ProxyLimitCheckParsed> {
    check_of(uri, |v: int| ProxyLimitCheckParsed::UriBytes(v as usize)) + check_of(
        headers,
        |v: int| ProxyLimitCheckParsed::RequestHeaders(v as usize),
    ) + check_of(header, |v: int| ProxyLimitCheckParsed::SingleHeaderBytes(v as usize)) + check_of(
        head,
        |v: int| ProxyLimitCheckParsed::RequestHeaderBytes(v as usize),
    ) + check_of(body, |v: int| ProxyLimitCheckParsed::RequestBodyBytes(v as u64))
}

/// Whether limits are those that the options ask for: by default 8 KiB of URI, 100 headers of at
/// most 8 KiB each and 64 KiB together, and 16 MiB of body.
pub open spec fn limits_as_asked(
    limits: Option<Nullable<ProxyLimitsOptions>>,
    parsed: ProxyLimitsOptionsParsed,
) -> bool {
    let checks = match limits {
        None => checks_of(Some(8192), Some(100), Some(8192), Some(65536), Some(16777216)),
        Some(Nullable::Null) => Seq::empty(),
        Some(Nullable::Value(l)) => checks_of(
            asked(l.max_uri_size, 8192),
            asked(l.max_request_headers, 100),
            asked(l.max_single_header_size, 8192),
            asked(l.max_request_header_size, 65536),
            asked(l.max_request_body_size, 16777216),
        ),
    };
    match parsed {
        ProxyLimitsOptionsParsed::Disabled => checks.len() == 0,
        ProxyLimitsOptionsParsed::Enabled { checks: kept } => checks.len() > 0 && kept@ == checks,
    }
}

/// The name of the first of the limits that is zero.
pub open spec fn zero_limit(limits: Option<Nullable<ProxyLimitsOptions>>) -> Option<Seq<char>> {
    match limits {
        Some(Nullable::Value(l)) => if asked(l.max_uri_size, 8192) == Some(0int) {
            Some("limits.maxUriSize"@)
        } else if asked(l.max_request_headers, 100) == Some(0int) {
            Some("limits.maxRequestHeaders"@)
        } else if asked(l.max_single_header_size, 8192) == Some(0int) {
            Some("limits.maxSingleHeaderSize"@)
        } else if asked(l.max_request_header_size, 65536) == Some(0int) {
            Some("limits.maxRequestHeaderSize"@)
        } else if asked(l.max_request_body_size, 16777216) == Some(0int) {
            Some("limits.maxRequestBodySize"@)
        } else {
            None
        },
        _ => None,
    }
}

proof fn lemma_first_zero(values: Seq<Option<u32>>)
    requires
        values.len() == 5,
    ensures
        first_zero(values, 0) == (if values[0] == Some(0u32) {
            Some(0int)
        } else if values[1] == Some(0u32) {
            Some(1int)
        } else if values[2] == Some(0u32) {
            Some(2int)
        } else if values[3] == Some(0u32) {
            Some(3int)
        } else if values[4] == Some(0u32) {
            Some(4int)
        } else {
            None
        }),
{
    reveal_with_fuel(first_zero, 6);
}

proof fn lemma_limits(limits: Option<Nullable<ProxyLimitsOptions>>)
    ensures
        limits_failure(limits) == (match zero_limit(limits) {
            Some(field) => Some(super::not_positive(field)),
            None => None,
        }),
        limits matches Some(Nullable::Value(l)) ==> limits_checks(limits) == checks_of(
            asked(l.max_uri_size, 8192),
            asked(l.max_request_headers, 100),
            asked(l.max_single_header_size, 8192),
            asked(l.max_request_header_size, 65536),
            asked(l.max_request_body_size, 16777216),
        ),
        limits is None ==> limits_checks(limits) == checks_of(
            Some(8192),
            Some(100),
            Some(8192),
            Some(65536),
            Some(16777216),
        ),
{
    if let Some(Nullable::Value(l)) = limits {
        let values = limit_values(l);
        let uri = check_of(
            asked(l.max_uri_size, 8192),
            |v: int| ProxyLimitCheckParsed::UriBytes(v as usize),
        );
        let headers = check_of(
            asked(l.max_request_headers, 100),
            |v: int| ProxyLimitCheckParsed::RequestHeaders(v as usize),
        );
        let header = check_of(
            asked(l.max_single_header_size, 8192),
            |v: int| ProxyLimitCheckParsed::SingleHeaderBytes(v as usize),
        );
        let head = check_of(
            asked(l.max_request_header_size, 65536),
            |v: int| ProxyLimitCheckParsed::RequestHeaderBytes(v as usize),
        );
        let body = check_of(
            asked(l.max_request_body_size, 16777216),
            |v: int| ProxyLimitCheckParsed::RequestBodyBytes(v as u64),
        );
        assert(limit_checks(values, 0) =~= Seq::<ProxyLimitCheckParsed>::empty());
        assert(limit_checks(values, 1) =~= uri);
        assert(limit_checks(values, 2) =~= uri + headers);
        assert(limit_checks(values, 3) =~= uri + headers + header);
        assert(limit_checks(values, 4) =~= uri + headers + header + head);
        assert(limit_checks(values, 5) =~= uri + headers + header + head + body);
        lemma_first_zero(values);
    }
    if limits is None {
        assert(limits_checks(limits) =~= checks_of(
            Some(8192),
            Some(100),
            Some(8192),
            Some(65536),
            Some(16777216),
        ));
    }
}

/// The limits are those that the options ask for, unless one is zero, which is named.
pub proof fn law_limits(
    limits: Option<Nullable<ProxyLimitsOptions>>,
    r: Result<ProxyLimitsOptionsParsed, JsError>,
)
    requires
        call_ensures(parse_limits_options, (limits,), r),
    ensures
        match zero_limit(limits) {
            None => r matches Ok(parsed) && limits_as_asked(limits, parsed),
            Some(field) => r matches Err(e) && blames_options(e, field + " must be greater than 0"@),
        },
{
    lemma_limits(limits);
}

/// Whether timeouts are those that the options ask for: by default 10 s for the request's headers,
/// 5 s for connecting, 60 s for everything else, and 75 s of keeping a connection alive.
pub open spec fn timeouts_as_asked(
    timeouts: Option<ProxyTimeoutOptions>,
    parsed: ProxyTimeoutOptionsParsed,
) -> bool {
    match timeouts {
        None => {
            &&& parsed.downstream_header_timeout_ms == 10000
            &&& parsed.downstream_body_idle_timeout_ms == 60000
            &&& parsed.upstream_connect_timeout_ms == 5000
            &&& parsed.upstream_read_timeout_ms == 60000
            &&& parsed.upstream_write_timeout_ms == 60000
            &&& parsed.downstream_keep_alive_timeout_seconds == 75
        },
        Some(t) => {
            &&& parsed.downstream_header_timeout_ms == wanted(t.downstream_header, 10000)
            &&& parsed.downstream_body_idle_timeout_ms == wanted(t.downstream_body_idle, 60000)
            &&& parsed.upstream_connect_timeout_ms == wanted(t.upstream_connect, 5000)
            &&& parsed.upstream_read_timeout_ms == wanted(t.upstream_read, 60000)
            &&& parsed.upstream_write_timeout_ms == wanted(t.upstream_write, 60000)
            &&& parsed.downstream_keep_alive_timeout_seconds == wanted(t.downstream_keep_alive, 75)
        },
    }
}

/// The name of the first of the timeouts that is zero.
pub open spec fn zero_timeout(timeouts: Option<ProxyTimeoutOptions>) -> Option<Seq<char>> {
    match timeouts {
        Some(t) => if t.downstream_header == Some(0u32) {
            Some("timeouts.downstreamHeader"@)
        } else if t.downstream_body_idle == Some(0u32) {
            Some("timeouts.downstreamBodyIdle"@)
        } else if t.upstream_connect == Some(0u32) {
            Some("timeouts.upstreamConnect"@)
        } else if t.upstream_read == Some(0u32) {
            Some("timeouts.upstreamRead"@)
        } else if t.upstream_write == Some(0u32) {
            Some("timeouts.upstreamWrite"@)
        } else if t.downstream_keep_alive == Some(0u32) {
            Some("timeouts.downstreamKeepAlive"@)
        } else {
            None
        },
        None => None,
    }
}

proof fn lemma_timeouts(timeouts: Option<ProxyTimeoutOptions>)
    ensures
        timeouts_failure(timeouts) == (match zero_timeout(timeouts) {
            Some(field) => Some(super::not_positive(field)),
            None => None,
        }),
        timeouts_as_asked(timeouts, timeouts_parsed(timeouts)),
{
    reveal_with_fuel(first_zero, 7);
}

/// The timeouts are those that the options ask for, unless one is zero, which is named.
pub proof fn law_timeouts(
    timeouts: Option<ProxyTimeoutOptions>,
    r: Result<ProxyTimeoutOptionsParsed, JsError>,
)
    requires
        call_ensures(parse_timeout_options, (timeouts,), r),
    ensures
        match zero_timeout(timeouts) {
            None => r matches Ok(parsed) && timeouts_as_asked(timeouts, parsed),
            Some(field) => r matches Err(e) && blames_options(e, field + " must be greater than 0"@),
        },
{
    lemma_timeouts(timeouts);
}

/// Whether sticky sessions are those that the options ask for: off without options, on with them
/// unless they say otherwise, by default for ten minutes and up to 20000 bindings.
pub open spec fn sticky_as_asked(
    sticky: Option<StickySessionOptions>,
    parsed: StickySessionOptionsParsed,
) -> bool {
    let cookie_name = if sticky is Some && sticky->0.cookie_name is Some {
        sticky->0.cookie_name->0@
    } else {
        "nmt_affinity"@
    };
    let header_name = if sticky is Some && sticky->0.header_name is Some {
        sticky->0.header_name->0@
    } else {
        "x-nmt-affinity-key"@
    };
    &&& parsed.enabled == (sticky is Some && sticky->0.enabled != Some(false))
    &&& parsed.cookie_name@ == cookie_name
    &&& parsed.header_name@ == header_name
    &&& parsed.ttl_ms == (if sticky is Some && sticky->0.ttl_ms is Some {
        sticky->0.ttl_ms->0 as int
    } else {
        600000int
    })
    &&& parsed.max_entries == (if sticky is Some && sticky->0.max_entries is Some {
        sticky->0.max_entries->0 as int
    } else {
        20000int
    })
}

/// What is wrong with sticky session options: a name of blanks alone, or a zero.
pub open spec fn sticky_fault(sticky: Option<StickySessionOptions>) -> Option<Seq<char>> {
    match sticky {
        None => None,
        Some(s) => if s.cookie_name is Some && only_blanks(s.cookie_name->0@) {
            Some("stickySessions.cookieName must be non-empty"@)
        } else if s.header_name is Some && only_blanks(s.header_name->0@) {
            Some("stickySessions.headerName must be non-empty"@)
        } else if s.ttl_ms == Some(0u32) {
            Some("stickySessions.ttlMs must be greater than 0"@)
        } else if s.max_entries == Some(0u32) {
            Some("stickySessions.maxEntries must be greater than 0"@)
        } else {
            None
        },
    }
}

/// Nothing is left of a text that is trimmed exactly where it is made of blanks.
proof fn lemma_trimmed_away(s: Seq<char>)
    ensures
        text::trimmed(s).len() == 0 <==> only_blanks(s),
{
    let around = law_trimmed(s);
    let inner = text::trimmed(s);
    if inner.len() == 0 {
        assert forall|i: int| 0 <= i < s.len() implies blank(#[trigger] s[i]) by {
            if i < around.0.len() {
                assert(s[i] == around.0[i]);
            } else {
                assert(s[i] == around.1[i - around.0.len()]);
            }
        }
    } else {
        assert(s[around.0.len() as int] == inner[0]);
    }
}

proof fn lemma_sticky(sticky: Option<StickySessionOptions>)
    ensures
        sticky_failure(sticky) == (match sticky_fault(sticky) {
            Some(message) => Some(super::invalid_options(message)),
            None => None,
        }),
{
    reveal_strlit("nmt_affinity");
    reveal_strlit("x-nmt-affinity-key");
    assert(!blank("nmt_affinity"@[0]));
    assert(!blank("x-nmt-affinity-key"@[0]));
    lemma_trimmed_away("nmt_affinity"@);
    lemma_trimmed_away("x-nmt-affinity-key"@);
    if let Some(s) = sticky {
        if let Some(name) = s.cookie_name {
            lemma_trimmed_away(name@);
        }
        if let Some(name) = s.header_name {
            lemma_trimmed_away(name@);
        }
    }
}

/// Sticky sessions are those that the options ask for, unless something is wrong with them, which
/// is named.
pub proof fn law_sticky_options(
    sticky: Option<StickySessionOptions>,
    r: Result<StickySessionOptionsParsed, JsError>,
)
    requires
        call_ensures(parse_sticky_session_options, (sticky,), r),
    ensures
        match sticky_fault(sticky) {
            None => r matches Ok(parsed) && sticky_as_asked(sticky, parsed),
            Some(message) => r matches Err(e) && blames_options(e, message),
        },
{
    lemma_sticky(sticky);
}

/// Whether a character can stand in a hostname.
pub open spec fn names_host(c: char) -> bool {
    48 <= c as int <= 57 || 65 <= c as int <= 90 || 97 <= c as int <= 122 || c == '-' || c == '.'
}

/// Whether a text is a hostname: letters, digits, hyphens and dots; nothing empty and no hyphen at
/// either end or beside a dot; and no 64 characters without a dot.
pub open spec fn hostname(s: Seq<char>) -> bool {
    &&& s.len() > 0
    &&& forall|i: int| 0 <= i < s.len() ==> names_host(#[trigger] s[i])
    &&& s[0] != '-' && s[0] != '.' && s.last() != '-' && s.last() != '.'
    &&& forall|i: int, j: int|
        0 <= i && j == i + 1 && j < s.len() && #[trigger] s[i] == '.' ==> #[trigger] s[j] != '.'
            && s[j] != '-'
    &&& forall|i: int, j: int|
        0 <= i && j == i + 1 && j < s.len() && #[trigger] s[j] == '.' ==> #[trigger] s[i] != '-'
    &&& forall|i: int, j: int|
        0 <= i && j == i + 64 && j <= s.len() ==> (#[trigger] s.subrange(i, j)).contains('.')
}

proof fn lemma_label(s: Seq<char>)
    requires
        !s.contains('.'),
    ensures
        label_ok(s) <==> hostname(s),
{
    assert forall|i: int| 0 <= i < s.len() implies s[i] != '.' && (names_host(#[trigger] s[i])
        <==> text::ascii_alphanumeric(s[i]) || s[i] == '-') by {
        assert(s.contains(s[i]));
        law_ascii_classes(s[i]);
    }
    if label_ok(s) {
        assert(s[0] != '.' && s.last() != '.');
        assert forall|i: int| 0 <= i < s.len() implies names_host(#[trigger] s[i]) by {
            assert(text::ascii_alphanumeric(s[i]) || s[i] == '-');
        }
    }
    if hostname(s) {
        if s.len() >= 64 {
            let run = s.subrange(0, 64);
            assert(run.contains('.'));
            let j = choose|j: int| 0 <= j < run.len() && run[j] == '.';
            assert(s[j] == '.');
        }
        assert forall|i: int| 0 <= i < s.len() implies text::ascii_alphanumeric(#[trigger] s[i])
            || s[i] == '-' by {
            assert(names_host(s[i]));
        }
    }
}

proof fn lemma_hostname_parts(s: Seq<char>, i: int)
    requires
        0 <= i < s.len(),
        s[i] == '.',
        !s.take(i).contains('.'),
    ensures
        hostname(s) <==> hostname(s.take(i)) && hostname(s.skip(i + 1)),
{
    let a = s.take(i);
    let b = s.skip(i + 1);
    if hostname(s) {
        assert(i > 0 && i < s.len() - 1);
        assert(a[0] == s[0] && b.last() == s.last());
        assert(s[i - 1] != '-');
        assert(a.last() == s[i - 1]);
        assert(s[i + 1] != '.' && s[i + 1] != '-');
        assert(b[0] == s[i + 1]);
        assert(a.last() != '.') by {
            assert(a.contains(a[i - 1]));
        }
        assert forall|k: int| 0 <= k < a.len() implies names_host(#[trigger] a[k]) by {
            assert(names_host(s[k]));
        }
        assert forall|k: int| 0 <= k < b.len() implies names_host(#[trigger] b[k]) by {
            assert(names_host(s[i + 1 + k]));
        }
        assert forall|k: int, j: int|
            0 <= k && j == k + 1 && j < b.len() && #[trigger] b[k] == '.' implies #[trigger] b[j]
            != '.' && b[j] != '-' by {
            assert(s[i + 1 + k] == '.' && s[i + 1 + j] == b[j]);
        }
        assert forall|k: int, j: int|
            0 <= k && j == k + 1 && j < b.len() && #[trigger] b[j] == '.' implies #[trigger] b[k]
            != '-' by {
            assert(s[i + 1 + j] == '.' && s[i + 1 + k] == b[k]);
        }
        assert forall|k: int, j: int|
            0 <= k && j == k + 1 && j < a.len() && #[trigger] a[k] == '.' implies #[trigger] a[j]
            != '.' && a[j] != '-' by {
            assert(s[k] == '.' && s[j] == a[j]);
        }
        assert forall|k: int, j: int|
            0 <= k && j == k + 1 && j < a.len() && #[trigger] a[j] == '.' implies #[trigger] a[k]
            != '-' by {
            assert(s[j] == '.' && s[k] == a[k]);
        }
        assert forall|k: int, j: int| 0 <= k && j == k + 64 && j <= a.len() implies (
        #[trigger] a.subrange(k, j)).contains('.') by {
            assert(a.subrange(k, j) =~= s.subrange(k, j));
        }
        assert forall|k: int, j: int| 0 <= k && j == k + 64 && j <= b.len() implies (
        #[trigger] b.subrange(k, j)).contains('.') by {
            assert(b.subrange(k, j) =~= s.subrange(i + 1 + k, i + 1 + j));
        }
    }
    if hostname(a) && hostname(b) {
        assert(a[0] == s[0] && b.last() == s.last() && a.last() == s[i - 1] && b[0] == s[i + 1]);
        assert forall|k: int| 0 <= k < s.len() implies names_host(#[trigger] s[k]) by {
            if k < i {
                assert(names_host(a[k]));
            } else if k > i {
                assert(names_host(b[k - i - 1]));
            }
        }
        assert forall|k: int, j: int|
            0 <= k && j == k + 1 && j < s.len() && #[trigger] s[k] == '.' implies #[trigger] s[j]
            != '.' && s[j] != '-' by {
            if k < i {
                assert(a.contains(a[k]));
            } else if k > i {
                assert(b[k - i - 1] == '.' && b[j - i - 1] == s[j]);
            }
        }
        assert forall|k: int, j: int|
            0 <= k && j == k + 1 && j < s.len() && #[trigger] s[j] == '.' implies #[trigger] s[k]
            != '-' by {
            if j < i {
                assert(a.contains(a[j]));
            } else if k > i {
                assert(b[j - i - 1] == '.' && b[k - i - 1] == s[k]);
            }
        }
        assert forall|k: int, j: int| 0 <= k && j == k + 64 && j <= s.len() implies (
        #[trigger] s.subrange(k, j)).contains('.') by {
            let run = s.subrange(k, j);
            if k <= i < k + 64 {
                assert(run[i - k] == '.');
            } else if k + 64 <= i {
                assert(run =~= a.subrange(k, j));
            } else {
                assert(run =~= b.subrange(k - i - 1, j - i - 1));
            }
        }
    }
}

/// What looks like a hostname is one, and the other way round.
pub proof fn law_hostnames(s: Seq<char>)
    ensures
        hostname_like(s) <==> hostname(s),
    decreases s.len(),
{
    text::lemma_first_found(s, '.', 0);
    let i = text::first_from(s, '.', 0);
    let all = text::split(s, '.');
    if i < s.len() {
        let first = s.take(i);
        let rest = s.skip(i + 1);
        let tail = text::split(rest, '.');
        law_hostnames(rest);
        assert(!first.contains('.'));
        lemma_label(first);
        lemma_hostname_parts(s, i);
        assert(all == seq![first] + tail);
        assert(all[0] == first);
        assert forall|k: int| 0 <= k < tail.len() implies tail[k] == all[k + 1] by {}
        if label_ok(first) && labels_ok(tail) {
            assert forall|k: int| 0 <= k < all.len() implies label_ok(#[trigger] all[k]) by {
                if k > 0 {
                    assert(all[k] == tail[k - 1]);
                }
            }
        }
        if labels_ok(all) {
            assert forall|k: int| 0 <= k < tail.len() implies label_ok(#[trigger] tail[k]) by {
                assert(all[k + 1] == tail[k]);
            }
        }
    } else {
        assert(!s.contains('.'));
        lemma_label(s);
        assert(all =~= seq![s]);
        assert(all[0] == s);
    }
}

/// [`is_hostname_like`] tells hostnames.
pub proof fn law_is_hostname_like(value: &str, r: bool)
    requires
        call_ensures(is_hostname_like, (value,), r),
    ensures
        r == hostname(value@),
{
    law_hostnames(value@);
}

/// Whether a name for certificates is the one that the options give, without blanks around it.
pub open spec fn sni_as_asked(sni: Option<String>, kept: Option<String>) -> bool {
    match (sni, kept) {
        (None, None) => true,
        (Some(given), Some(kept)) => trims_to(given@, kept@) && hostname(kept@),
        _ => false,
    }
}

/// What is wrong with a name for certificates: it is blank, or no hostname.
pub open spec fn sni_fault(sni: Option<String>) -> Option<Seq<char>> {
    match sni {
        None => None,
        Some(given) => if only_blanks(given@) {
            Some("ApplicationOptions.sni must be non-empty when provided"@)
        } else if exists|t: Seq<char>| #[trigger] trims_to(given@, t) && hostname(t) {
            None
        } else {
            Some("ApplicationOptions.sni must be a hostname-like value"@)
        },
    }
}

/// Whether a routing is the one that the options give.
pub open spec fn routing_as_asked(
    routing: ProxyApplicationRouting,
    kept: ApplicationRoutingParsed,
) -> bool {
    match (routing, kept) {
        (
            ProxyApplicationRouting::Subdomain { name: Some(given) },
            ApplicationRoutingParsed::Subdomain { name },
        ) => name@ == given@,
        (
            ProxyApplicationRouting::Path { name: Some(given) },
            ApplicationRoutingParsed::Path { name },
        ) => name@ == given@,
        (ProxyApplicationRouting::Default, ApplicationRoutingParsed::Default) => true,
        _ => false,
    }
}

/// What is wrong with a routing: it lacks its name.
pub open spec fn routing_fault(routing: ProxyApplicationRouting) -> Option<Seq<char>> {
    match routing {
        ProxyApplicationRouting::Subdomain { name: None } => Some(
            "ApplicationOptions.routing.name must be set for "@ + "subdomain"@ + " routing"@,
        ),
        ProxyApplicationRouting::Path { name: None } => Some(
            "ApplicationOptions.routing.name must be set for "@ + "path"@ + " routing"@,
        ),
        _ => None,
    }
}

/// Whether an application is the one that the options give.
pub open spec fn application_as_asked(
    app: ApplicationOptions,
    kept: ApplicationOptionsParsed,
) -> bool {
    &&& kept.name@ == app.name@
    &&& routing_as_asked(app.routing, kept.routing)
    &&& sni_as_asked(app.sni, kept.sni)
}

/// What is wrong with an application by itself.
pub open spec fn application_fault(app: ApplicationOptions) -> Option<Seq<char>> {
    if sni_fault(app.sni) is Some {
        sni_fault(app.sni)
    } else {
        routing_fault(app.routing)
    }
}

proof fn lemma_sni(sni: Option<String>)
    ensures
        sni_failure(sni) == (match sni_fault(sni) {
            Some(message) => Some(invalid_application(message)),
            None => None,
        }),
        sni is Some ==> trims_to(sni->0@, text::trimmed(sni->0@)),
        sni is Some && sni_failure(sni) is None ==> hostname(text::trimmed(sni->0@)),
{
    if let Some(given) = sni {
        let t = text::trimmed(given@);
        lemma_trimmed_away(given@);
        law_trims_to(given@, t);
        law_hostnames(t);
        assert forall|other: Seq<char>| #[trigger] trims_to(given@, other) implies other == t by {
            law_trims_to(given@, other);
        }
        if hostname(t) {
            assert(trims_to(given@, t) && hostname(t));
        }
    }
}

/// An application is the one that the options give, unless something is wrong with it, which is
/// named.
pub proof fn law_application_options(
    app: ApplicationOptions,
    r: Result<ApplicationOptionsParsed, JsError>,
)
    requires
        call_ensures(parse_application_options, (app,), r),
    ensures
        match application_fault(app) {
            None => r matches Ok(kept) && application_as_asked(app, kept),
            Some(message) => r matches Err(e) && blames_application(e) && e.message@ == message,
        },
{
    lemma_sni(app.sni);
}

/// The same of an application's parts.
pub proof fn law_application_parts(
    sni: Option<String>,
    sni_read: Result<Option<String>, JsError>,
    routing: ProxyApplicationRouting,
    routing_read: Result<ApplicationRoutingParsed, JsError>,
)
    requires
        call_ensures(parse_application_sni, (sni,), sni_read),
        call_ensures(parse_routing, (routing,), routing_read),
    ensures
        match sni_fault(sni) {
            None => sni_read matches Ok(kept) && sni_as_asked(sni, kept),
            Some(message) => sni_read matches Err(e) && blames_application(e) && e.message@
                == message,
        },
        match routing_fault(routing) {
            None => routing_read matches Ok(kept) && routing_as_asked(routing, kept),
            Some(message) => routing_read matches Err(e) && blames_application(e) && e.message@
                == message,
        },
{
    lemma_sni(sni);
}

/// What is wrong with an application's routing name.
pub open spec fn route_fault(app: ApplicationOptionsParsed) -> Option<Seq<char>> {
    match app.routing {
        ApplicationRoutingParsed::Subdomain { name } => if name@.len() == 0 {
            Some("subdomain routing name must be non-empty"@)
        } else {
            None
        },
        ApplicationRoutingParsed::Path { name } => if name@.len() == 0 {
            Some("path routing name must be non-empty"@)
        } else if name@.contains('/') {
            Some("path routing name must not contain '/'"@)
        } else {
            None
        },
        ApplicationRoutingParsed::Default => None,
    }
}

/// Whether two applications are routed to alike: by the same subdomain, whatever its case, by the
/// same path, or both by default.
pub open spec fn routed_alike(a: ApplicationOptionsParsed, b: ApplicationOptionsParsed) -> bool {
    match (a.routing, b.routing) {
        (
            ApplicationRoutingParsed::Subdomain { name: x },
            ApplicationRoutingParsed::Subdomain { name: y },
        ) => same_but_case(x@, y@),
        (ApplicationRoutingParsed::Path { name: x }, ApplicationRoutingParsed::Path { name: y }) => x@
            == y@,
        (ApplicationRoutingParsed::Default, ApplicationRoutingParsed::Default) => true,
        _ => false,
    }
}

/// Whether applications can be served together.
pub open spec fn can_be_served(apps: Seq<ApplicationOptionsParsed>) -> bool {
    &&& forall|i: int| 0 <= i < apps.len() ==> route_fault(#[trigger] apps[i]) is None
    &&& forall|i: int, j: int|
        0 <= i < j < apps.len() ==> (#[trigger] apps[i]).name@ != (#[trigger] apps[j]).name@
            && !routed_alike(apps[i], apps[j])
}

proof fn lemma_served(apps: Seq<ApplicationOptionsParsed>)
    ensures
        conflict_from(app_views(apps), 0) is None <==> can_be_served(apps),
{
    let views = app_views(apps);
    law_accepted_applications_are_sound(views);
    assert forall|i: int, j: int| 0 <= i < j < apps.len() implies (apart(
        #[trigger] views[i],
        #[trigger] views[j],
    ) <==> apps[i].name@ != apps[j].name@ && !routed_alike(apps[i], apps[j])) by {
        assert(views[i] == apps[i]@ && views[j] == apps[j]@);
        if let (Route::Subdomain(x), Route::Subdomain(y)) = (views[i].route, views[j].route) {
            law_small_letters_compare_without_case(x, y);
        }
    }
    assert forall|i: int| 0 <= i < apps.len() implies (route_ok((#[trigger] views[i]).route)
        <==> route_fault(apps[i]) is None) by {
        assert(views[i] == apps[i]@);
    }
    if can_be_served(apps) {
        assert forall|i: int| 0 <= i < views.len() implies route_ok((#[trigger] views[i]).route) by {
            assert(route_fault(apps[i]) is None);
        }
        assert forall|i: int, j: int| 0 <= i < j < views.len() implies apart(
            #[trigger] views[i],
            #[trigger] views[j],
        ) by {
            assert(apps[i].name@ != apps[j].name@);
        }
    }
    if sound(views) {
        assert forall|i: int| 0 <= i < apps.len() implies route_fault(#[trigger] apps[i]) is None by {
            assert(route_ok(views[i].route));
        }
        assert forall|i: int, j: int| 0 <= i < j < apps.len() implies (
        #[trigger] apps[i]).name@ != (#[trigger] apps[j]).name@ && !routed_alike(
            apps[i],
            apps[j],
        ) by {
            assert(apart(views[i], views[j]));
        }
    }
}

/// Applications that can be served together are sound.
pub proof fn lemma_served_is_sound(apps: Seq<ApplicationOptionsParsed>)
    requires
        can_be_served(apps),
    ensures
        sound(app_views(apps)),
{
    lemma_served(apps);
    law_accepted_applications_are_sound(app_views(apps));
}

proof fn lemma_conflicts_blame_applications(apps: Seq<App>, i: int)
    ensures
        conflict_from(apps, i) matches Some(f) ==> f.class == ErrorClass::TypeError && f.code
            == "InvalidApplicationOptions"@,
    decreases apps.len() - i,
{
    if i < apps.len() {
        lemma_conflicts_blame_applications(apps, i + 1);
    }
}

/// Applications are accepted exactly when they can be served together, and otherwise they are
/// blamed.
pub proof fn law_validate_applications(
    applications: &Vec<ApplicationOptionsParsed>,
    r: Result<(), JsError>,
)
    requires
        call_ensures(validate_applications, (applications,), r),
    ensures
        r is Ok <==> can_be_served(applications@),
        r matches Err(e) ==> blames_application(e),
{
    lemma_served(applications@);
    lemma_conflicts_blame_applications(app_views(applications@), 0);
}

/// The first application that gets in the way of one before it, or has no proper routing name, is
/// what the applications are refused for.
pub proof fn law_first_conflict_is_told(
    applications: &Vec<ApplicationOptionsParsed>,
    r: Result<(), JsError>,
    i: int,
)
    requires
        call_ensures(validate_applications, (applications,), r),
        0 <= i < applications@.len(),
        can_be_served(applications@.take(i)),
    ensures
        ({
            let apps = applications@;
            let app = apps[i];
            let named = exists|j: int| 0 <= j < i && (#[trigger] apps[j]).name@ == app.name@;
            let alike = exists|j: int| 0 <= j < i && routed_alike(#[trigger] apps[j], app);
            &&& named ==> r is Err && r->Err_0.message@ == "Duplicate "@ + "application name"@
                + " '"@ + app.name@ + "'"@
            &&& !named && route_fault(app) is Some ==> r is Err && r->Err_0.message@ == route_fault(
                app,
            )->0
            &&& !named && route_fault(app) is None && alike ==> match app.routing {
                ApplicationRoutingParsed::Subdomain { name } => r matches Err(e) && e.message@
                    == "Duplicate "@ + "subdomain routing name"@ + " '"@ + name@ + "'"@,
                ApplicationRoutingParsed::Path { name } => r matches Err(e) && e.message@
                    == "Duplicate "@ + "path routing name"@ + " '"@ + name@ + "'"@,
                ApplicationRoutingParsed::Default => r is Err,
            }
        }),
{
    let apps = applications@;
    let views = app_views(apps);
    let app = apps[i];
    let first = apps.take(i);
    lemma_no_conflict_before(apps, i, 0);
    assert(views[i] == app@);
    let named = exists|j: int| 0 <= j < i && (#[trigger] apps[j]).name@ == app.name@;
    assert(named <==> super::name_taken(views, i, app.name@)) by {
        if named {
            let j = choose|j: int| 0 <= j < i && (#[trigger] apps[j]).name@ == app.name@;
            assert(views[j].name == app.name@);
        }
        if super::name_taken(views, i, app.name@) {
            let j = choose|j: int| 0 <= j < i && (#[trigger] views[j]).name == app.name@;
            assert(apps[j].name@ == app.name@);
        }
    }
    let alike = exists|j: int| 0 <= j < i && routed_alike(#[trigger] apps[j], app);
    if alike {
        let j = choose|j: int| 0 <= j < i && routed_alike(#[trigger] apps[j], app);
        assert(views[j] == apps[j]@);
        if let (Route::Subdomain(x), Route::Subdomain(y)) = (views[j].route, views[i].route) {
            law_small_letters_compare_without_case(x, y);
            assert(super::subdomain_taken(views, i, y));
        }
        if let Route::Path(y) = views[i].route {
            assert(super::path_taken(views, i, y));
        }
        lemma_served(apps);
        if can_be_served(apps) {
            assert(apps[j].name@ != apps[i].name@);
        }
    }
    assert(conflict_from(views, 0) == conflict_from(views, i));
}

/// Applications that can be served bring no conflict before their end.
proof fn lemma_no_conflict_before(apps: Seq<ApplicationOptionsParsed>, i: int, k: int)
    requires
        0 <= k <= i <= apps.len(),
        can_be_served(apps.take(i)),
    ensures
        conflict_from(app_views(apps), k) == conflict_from(app_views(apps), i),
    decreases i - k,
{
    let views = app_views(apps);
    if k < i {
        lemma_no_conflict_before(apps, i, k + 1);
        let first = apps.take(i);
        assert(first[k] == apps[k]);
        assert(route_fault(first[k]) is None);
        assert(views[k] == apps[k]@);
        assert(conflict_at(views, k) is None) by {
            assert forall|j: int| 0 <= j < k implies (#[trigger] views[j]).name != views[k].name
                && !routed_alike(apps[j], apps[k]) by {
                assert(first[j] == apps[j]);
                assert(first[j].name@ != first[k].name@);
                assert(views[j] == apps[j]@);
            }
            assert forall|j: int| 0 <= j < k implies !((#[trigger] views[j]).route is Subdomain
                && views[k].route is Subdomain && text::lowered(views[j].route->Subdomain_0)
                == text::lowered(views[k].route->Subdomain_0)) by {
                assert(views[j].name != views[k].name);
                assert(views[j] == apps[j]@);
                if views[j].route is Subdomain && views[k].route is Subdomain {
                    law_small_letters_compare_without_case(
                        views[j].route->Subdomain_0,
                        views[k].route->Subdomain_0,
                    );
                }
            }
            assert forall|j: int| 0 <= j < k && views[k].route is Path implies (
            #[trigger] views[j]).route != views[k].route by {
                assert(views[j].name != views[k].name);
                assert(views[j] == apps[j]@);
            }
        }
    }
}

/// Whether TLS is what the options ask for. HTTP/2 is off unless it is asked for.
pub open spec fn tls_as_asked(
    tls: Option<ListenerTlsOptions>,
    kept: Option<ListenerTlsOptionsParsed>,
) -> bool {
    match (tls, kept) {
        (None, None) => true,
        (Some(given), Some(kept)) => {
            &&& kept.cert_path@ == given.cert_path@
            &&& kept.key_path@ == given.key_path@
            &&& kept.enable_h2 == (given.enable_h2 is Some && given.enable_h2->0)
        },
        _ => false,
    }
}

/// Whether parsed options are what callers ask for.
pub open spec fn options_as_asked(options: ProxyOptions, parsed: ProxyOptionsParsed) -> bool {
    &&& parsed.listen@ == options.listen@
    &&& tls_as_asked(options.tls, parsed.tls)
    &&& parsed.applications@.len() == options.applications@.len()
    &&& forall|i: int|
        0 <= i < options.applications@.len() ==> application_as_asked(
            options.applications@[i],
            #[trigger] parsed.applications@[i],
        )
    &&& can_be_served(parsed.applications@)
    &&& parsed.health_check_interval_ms == wanted(options.health_check_interval_ms, 5000)
    &&& sticky_as_asked(options.sticky_sessions, parsed.sticky_sessions)
    &&& limits_as_asked(options.limits, parsed.limits)
    &&& timeouts_as_asked(options.timeouts, parsed.timeouts)
}

proof fn lemma_first_application_failure(apps: Seq<ApplicationOptions>, i: int)
    requires
        0 <= i <= apps.len(),
    ensures
        first_application_failure(apps, i) is None <==> forall|k: int|
            i <= k < apps.len() ==> application_fault(#[trigger] apps[k]) is None,
        first_application_failure(apps, i) matches Some(f) ==> f.class == ErrorClass::TypeError
            && f.code == "InvalidApplicationOptions"@,
    decreases apps.len() - i,
{
    if i < apps.len() {
        lemma_first_application_failure(apps, i + 1);
        lemma_sni(apps[i].sni);
        assert(application_failure(apps[i]) is None <==> application_fault(apps[i]) is None);
    }
}

/// What options make of a proxy is what they ask for.
pub proof fn lemma_options_kept(options: ProxyOptions, parsed: ProxyOptionsParsed)
    requires
        options_failure(options) is None,
        options_kept(options, parsed),
    ensures
        options_as_asked(options, parsed),
{
    lemma_limits(options.limits);
    lemma_timeouts(options.timeouts);
    lemma_first_application_failure(options.applications@, 0);
    lemma_served(parsed.applications@);
    let views = app_views(parsed.applications@);
    let kept = applications_kept(options.applications@);
    assert(views == kept);
    assert(views.len() == kept.len());
    assert forall|i: int| 0 <= i < options.applications@.len() implies application_as_asked(
        options.applications@[i],
        #[trigger] parsed.applications@[i],
    ) by {
        let app = options.applications@[i];
        assert(views[i] == parsed.applications@[i]@);
        assert(kept[i] == super::application_kept(app));
        assert(application_fault(app) is None);
        lemma_sni(app.sni);
    }
}

/// Whether something is wrong with an application by itself.
pub open spec fn some_application_fault(options: ProxyOptions) -> bool {
    exists|i: int|
        0 <= i < options.applications@.len() && application_fault(
            #[trigger] options.applications@[i],
        ) is Some
}

/// Whether an application is asked for with this name, by this route.
pub open spec fn asks_for(app: ApplicationOptions, name: Seq<char>, route: Route) -> bool {
    &&& app.name@ == name
    &&& match (app.routing, route) {
        (
            ProxyApplicationRouting::Subdomain { name: Some(given) },
            Route::Subdomain(kept),
        ) => given@ == kept,
        (ProxyApplicationRouting::Path { name: Some(given) }, Route::Path(kept)) => given@ == kept,
        (ProxyApplicationRouting::Default, Route::Default) => true,
        _ => false,
    }
}

/// Whether applications get in each other's way, or have no proper routing name.
pub open spec fn applications_clash(options: ProxyOptions) -> bool {
    !exists|apps: Seq<App>|
        {
            &&& #[trigger] sound(apps)
            &&& apps.len() == options.applications@.len()
            &&& forall|i: int|
                0 <= i < apps.len() ==> asks_for(
                    options.applications@[i],
                    (#[trigger] apps[i]).name,
                    apps[i].route,
                )
        }
}

proof fn lemma_clash(options: ProxyOptions)
    requires
        !some_application_fault(options),
    ensures
        applications_clash(options) <==> conflict_from(
            applications_kept(options.applications@),
            0,
        ) is Some,
{
    let given = options.applications@;
    let kept = applications_kept(given);
    law_accepted_applications_are_sound(kept);
    assert forall|i: int| 0 <= i < given.len() implies asks_for(
        given[i],
        (#[trigger] kept[i]).name,
        kept[i].route,
    ) by {
        assert(application_fault(given[i]) is None);
        assert(kept[i] == super::application_kept(given[i]));
    }
    if sound(kept) {
        assert(!applications_clash(options));
    }
    if !applications_clash(options) {
        let apps = choose|apps: Seq<App>|
            {
                &&& #[trigger] sound(apps)
                &&& apps.len() == given.len()
                &&& forall|i: int|
                    0 <= i < apps.len() ==> asks_for(
                        given[i],
                        (#[trigger] apps[i]).name,
                        apps[i].route,
                    )
            };
        assert forall|i: int| 0 <= i < kept.len() implies (#[trigger] kept[i]).name
            == apps[i].name && kept[i].route == apps[i].route by {
            assert(asks_for(given[i], apps[i].name, apps[i].route));
            assert(asks_for(given[i], kept[i].name, kept[i].route));
        }
        assert forall|i: int| 0 <= i < kept.len() implies route_ok((#[trigger] kept[i]).route) by {
            assert(route_ok(apps[i].route));
        }
        assert forall|i: int, j: int| 0 <= i < j < kept.len() implies apart(
            #[trigger] kept[i],
            #[trigger] kept[j],
        ) by {
            assert(apart(apps[i], apps[j]));
        }
        assert(sound(kept));
    }
}

/// What is wrong with options: the class and code of the error that tells it, and where it is about
/// more than applications, its message.
pub proof fn lemma_options_failure(options: ProxyOptions)
    ensures
        ({
            let failure = options_failure(options);
            if some_application_fault(options) || applications_clash(options) {
                failure is Some && failure->0.class == ErrorClass::TypeError && failure->0.code
                    == "InvalidApplicationOptions"@
            } else {
                match sticky_fault(options.sticky_sessions) {
                    Some(message) => failure == Some(super::invalid_options(message)),
                    None => match zero_limit(options.limits) {
                        Some(field) => failure == Some(super::not_positive(field)),
                        None => match zero_timeout(options.timeouts) {
                            Some(field) => failure == Some(super::not_positive(field)),
                            None => failure is None,
                        },
                    },
                }
            }
        }),
{
    lemma_limits(options.limits);
    lemma_timeouts(options.timeouts);
    lemma_sticky(options.sticky_sessions);
    lemma_first_application_failure(options.applications@, 0);
    lemma_conflicts_blame_applications(applications_kept(options.applications@), 0);
    if !some_application_fault(options) {
        lemma_clash(options);
    }
}

/// What an error about options says: of what is wrong with them the first, which is an application
/// by itself, the applications together, the sticky sessions, the limits, the timeouts, in this
/// order. There is one exactly where something is wrong.
pub open spec fn options_refused(options: ProxyOptions, e: JsError) -> bool {
    if some_application_fault(options) || applications_clash(options) {
        blames_application(e)
    } else {
        match sticky_fault(options.sticky_sessions) {
            Some(message) => blames_options(e, message),
            None => match zero_limit(options.limits) {
                Some(field) => blames_options(e, field + " must be greater than 0"@),
                None => match zero_timeout(options.timeouts) {
                    Some(field) => blames_options(e, field + " must be greater than 0"@),
                    None => false,
                },
            },
        }
    }
}

/// Whether nothing is wrong with options.
pub open spec fn options_in_order(options: ProxyOptions) -> bool {
    &&& !some_application_fault(options)
    &&& !applications_clash(options)
    &&& sticky_fault(options.sticky_sessions) is None
    &&& zero_limit(options.limits) is None
    &&& zero_timeout(options.timeouts) is None
}

/// Options are accepted or refused as a whole: what is accepted is what they ask for, and of what is
/// wrong with them the first is told.
pub proof fn law_proxy_options(options: ProxyOptions, r: Result<ProxyOptionsParsed, JsError>)
    requires
        call_ensures(parse_proxy_options, (options,), r),
    ensures
        r is Ok <==> options_in_order(options),
        r matches Ok(parsed) ==> options_as_asked(options, parsed),
        r matches Err(e) ==> options_refused(options, e),
{
    lemma_options_failure(options);
    if let Ok(parsed) = r {
        lemma_options_kept(options, parsed);
    }
}

/// Without a word about limits, those that stand are the default ones; and a routing that must have
/// a name is handed its name, or refused.
pub proof fn law_defaults_and_names(
    limits: ProxyLimitsOptionsParsed,
    routing_type: &str,
    name: Option<String>,
    r: Result<String, JsError>,
)
    requires
        call_ensures(default_limit_checks, (), limits),
        call_ensures(require_routing_name, (routing_type, name), r),
    ensures
        limits_as_asked(None, limits),
        name matches Some(given) ==> r is Ok && r->Ok_0@ == given@,
        name is None ==> r is Err && blames_application(r->Err_0) && r->Err_0.message@
            == "ApplicationOptions.routing.name must be set for "@ + routing_type@ + " routing"@,
{
    lemma_limits(None);
}

} // verus!
