//! The options of a proxy: what callers pass, and what is made of it.

use vstd::prelude::*;
use vstd::string::*;

use crate::errors::{codes, throw_type_error, type_error, type_failure, Failure, JsError};
use crate::text;

pub mod defaults;
pub mod laws;

verus! {

/// An option that can be switched off by passing `null`.
#[derive(Debug)]
pub enum Nullable<T> {
    Value(T),
    Null,
}

/// What callers pass.
#[derive(Debug)]
pub struct ProxyOptions {
    pub listen: String,
    pub tls: Option<ListenerTlsOptions>,
    pub applications: Vec<ApplicationOptions>,
    /// Health check interval in milliseconds. Defaults to 5000ms (5 seconds).
    pub health_check_interval_ms: Option<u32>,
    /// Sticky session configuration.
    pub sticky_sessions: Option<StickySessionOptions>,
    /// Request size and header limits. All size values are bytes. `Null` disables them all.
    pub limits: Option<Nullable<ProxyLimitsOptions>>,
    /// Timeouts. Values are milliseconds except `downstream_keep_alive`, which is seconds.
    pub timeouts: Option<ProxyTimeoutOptions>,
}

#[derive(Debug)]
pub struct ProxyLimitsOptions {
    /// Maximum request URI size, in bytes (default: 8192 bytes / 8 KiB). `Null` disables the check.
    pub max_uri_size: Option<Nullable<u32>>,
    /// Maximum request header count (default: 100). `Null` disables the check.
    pub max_request_headers: Option<Nullable<u32>>,
    /// Maximum single request header size, in bytes (default: 8192 bytes / 8 KiB). `Null` disables
    /// the check.
    pub max_single_header_size: Option<Nullable<u32>>,
    /// Maximum total request header size, in bytes (default: 65536 bytes / 64 KiB). `Null` disables
    /// the check.
    pub max_request_header_size: Option<Nullable<u32>>,
    /// Maximum Content-Length accepted, in bytes (default: 16777216 bytes / 16 MiB). `Null`
    /// disables the check.
    pub max_request_body_size: Option<Nullable<u32>>,
}

#[derive(Debug)]
pub struct ProxyTimeoutOptions {
    /// Timeout for receiving downstream request headers, in milliseconds (default: 10000 ms).
    pub downstream_header: Option<u32>,
    /// Idle timeout between downstream request body chunks, in milliseconds (default: 60000 ms).
    pub downstream_body_idle: Option<u32>,
    /// Timeout for connecting to upstream, in milliseconds (default: 5000 ms).
    pub upstream_connect: Option<u32>,
    /// Idle timeout while reading upstream response data, in milliseconds (default: 60000 ms).
    pub upstream_read: Option<u32>,
    /// Idle timeout while writing request data upstream, in milliseconds (default: 60000 ms).
    pub upstream_write: Option<u32>,
    /// Downstream keep-alive idle timeout, in seconds (default: 75 seconds).
    pub downstream_keep_alive: Option<u32>,
}

#[derive(Debug)]
pub struct StickySessionOptions {
    /// Whether sticky sessions are enabled.
    pub enabled: Option<bool>,
    /// Cookie name used to persist the affinity key (default: "nmt_affinity").
    pub cookie_name: Option<String>,
    /// Header name used for a custom affinity key (default: "x-nmt-affinity-key").
    pub header_name: Option<String>,
    /// Sliding expiration TTL in milliseconds (default: 600000 = 10 minutes).
    pub ttl_ms: Option<u32>,
    /// Maximum affinity entries kept in memory (default: 20000).
    pub max_entries: Option<u32>,
}

#[derive(Debug)]
pub struct ListenerTlsOptions {
    pub cert_path: String,
    pub key_path: String,
    pub enable_h2: Option<bool>,
}

#[derive(Debug)]
pub struct ApplicationOptions {
    pub name: String,
    pub routing: ProxyApplicationRouting,
    pub sni: Option<String>,
}

#[derive(Debug)]
pub enum ProxyApplicationRouting {
    Path { name: Option<String> },
    Subdomain { name: Option<String> },
    Default,
}

/// What is made of [`ProxyOptions`].
#[derive(Debug)]
pub struct ProxyOptionsParsed {
    pub listen: String,
    pub tls: Option<ListenerTlsOptionsParsed>,
    pub applications: Vec<ApplicationOptionsParsed>,
    /// Health check interval in milliseconds.
    pub health_check_interval_ms: u32,
    pub sticky_sessions: StickySessionOptionsParsed,
    pub limits: ProxyLimitsOptionsParsed,
    pub timeouts: ProxyTimeoutOptionsParsed,
}

#[derive(Debug)]
pub struct StickySessionOptionsParsed {
    pub enabled: bool,
    pub cookie_name: String,
    pub header_name: String,
    pub ttl_ms: u32,
    pub max_entries: usize,
}

#[derive(Debug)]
pub enum ProxyLimitsOptionsParsed {
    Disabled,
    Enabled { checks: Vec<ProxyLimitCheckParsed> },
}

#[derive(Debug, Clone, Copy, PartialEq, Eq, Structural)]
pub enum ProxyLimitCheckParsed {
    UriBytes(usize),
    RequestHeaders(usize),
    SingleHeaderBytes(usize),
    RequestHeaderBytes(usize),
    RequestBodyBytes(u64),
}

#[derive(Debug, Clone, Copy, PartialEq, Eq, Structural)]
pub struct ProxyTimeoutOptionsParsed {
    pub downstream_header_timeout_ms: u32,
    pub downstream_body_idle_timeout_ms: u32,
    pub upstream_connect_timeout_ms: u32,
    pub upstream_read_timeout_ms: u32,
    pub upstream_write_timeout_ms: u32,
    pub downstream_keep_alive_timeout_seconds: u32,
}

#[derive(Debug)]
pub struct ListenerTlsOptionsParsed {
    pub cert_path: String,
    pub key_path: String,
    pub enable_h2: bool,
}

impl Clone for ListenerTlsOptionsParsed {
    fn clone(&self) -> (r: Self)
        ensures
            r == *self,
    {
        ListenerTlsOptionsParsed {
            cert_path: self.cert_path.clone(),
            key_path: self.key_path.clone(),
            enable_h2: self.enable_h2,
        }
    }
}

#[derive(Debug)]
pub struct ApplicationOptionsParsed {
    pub name: String,
    pub routing: ApplicationRoutingParsed,
    pub sni: Option<String>,
}

#[derive(Debug)]
pub enum ApplicationRoutingParsed {
    Subdomain { name: String },
    Path { name: String },
    Default,
}

/// The characters of a string that may be left out.
pub open spec fn opt_text(s: Option<String>) -> Option<Seq<char>> {
    match s {
        Some(s) => Some(s@),
        None => None,
    }
}

/// The failure of an option that must be positive.
pub open spec fn not_positive(field: Seq<char>) -> Failure {
    type_failure(codes::INVALID_PROXY_OPTIONS@, field + " must be greater than 0"@)
}

/// A limit, or `None` when it is switched off.
pub open spec fn limit_value(value: Option<Nullable<u32>>, default: u32) -> Option<u32> {
    match value {
        Some(Nullable::Value(v)) => Some(v),
        Some(Nullable::Null) => None,
        None => Some(default),
    }
}

/// A timeout.
pub open spec fn value_or(value: Option<u32>, default: u32) -> u32 {
    match value {
        Some(v) => v,
        None => default,
    }
}

/// Reads a limit that must be positive unless it is switched off.
pub fn parse_nullable_positive_u32(
    field: &str,
    value: Option<Nullable<u32>>,
    default: u32,
) -> (r: Result<Option<u32>, JsError>)
    ensures
        (match r {
            Ok(v) => v == limit_value(value, default) && v != Some(0u32),
            Err(e) => limit_value(value, default) == Some(0u32) && e@ == not_positive(field@),
        }),
{
    let value: u32 = match value {
        Some(Nullable::Value(v)) => v,
        Some(Nullable::Null) => return Ok(None),
        None => default,
    };
    if value == 0 {
        let mut message = field.to_owned();
        message.append(" must be greater than 0");
        return throw_type_error(codes::INVALID_PROXY_OPTIONS, message);
    }
    Ok(Some(value))
}

/// Reads a timeout, which must be positive.
pub fn parse_positive_u32(field: &str, value: Option<u32>, default: u32) -> (r: Result<
    u32,
    JsError,
>)
    ensures
        (match r {
            Ok(v) => v == value_or(value, default) && v != 0,
            Err(e) => value_or(value, default) == 0 && e@ == not_positive(field@),
        }),
{
    let value: u32 = match value {
        Some(v) => v,
        None => default,
    };
    if value == 0 {
        let mut message = field.to_owned();
        message.append(" must be greater than 0");
        return throw_type_error(codes::INVALID_PROXY_OPTIONS, message);
    }
    Ok(value)
}

/// Reads a limit that is kept as a `usize`.
pub fn parse_nullable_positive_usize(
    field: &str,
    value: Option<Nullable<u32>>,
    default: usize,
) -> (r: Result<Option<usize>, JsError>)
    ensures
        (match r {
            Ok(Some(v)) => limit_value(value, default as u32) == Some(v as u32) && 0 < v
                <= u32::MAX,
            Ok(None) => limit_value(value, default as u32) is None,
            Err(e) => limit_value(value, default as u32) == Some(0u32) && e@ == not_positive(
                field@,
            ),
        }),
{
    match parse_nullable_positive_u32(field, value, default as u32) {
        Ok(Some(v)) => Ok(Some(v as usize)),
        Ok(None) => Ok(None),
        Err(e) => Err(e),
    }
}

/// Reads a limit that is kept as a `u64`.
pub fn parse_nullable_positive_u64(
    field: &str,
    value: Option<Nullable<u32>>,
    default: u64,
) -> (r: Result<Option<u64>, JsError>)
    ensures
        (match r {
            Ok(Some(v)) => limit_value(value, default as u32) == Some(v as u32) && 0 < v
                <= u32::MAX,
            Ok(None) => limit_value(value, default as u32) is None,
            Err(e) => limit_value(value, default as u32) == Some(0u32) && e@ == not_positive(
                field@,
            ),
        }),
{
    match parse_nullable_positive_u32(field, value, default as u32) {
        Ok(Some(v)) => Ok(Some(v as u64)),
        Ok(None) => Ok(None),
        Err(e) => Err(e),
    }
}

/// The checks that stand when nothing is said about limits.
pub open spec fn standard_checks() -> Seq<ProxyLimitCheckParsed> {
    seq![
        ProxyLimitCheckParsed::UriBytes(defaults::MAX_URI_BYTES),
        ProxyLimitCheckParsed::RequestHeaders(defaults::MAX_REQUEST_HEADERS),
        ProxyLimitCheckParsed::SingleHeaderBytes(defaults::MAX_SINGLE_HEADER_BYTES),
        ProxyLimitCheckParsed::RequestHeaderBytes(defaults::MAX_REQUEST_HEADER_BYTES),
        ProxyLimitCheckParsed::RequestBodyBytes(defaults::MAX_REQUEST_BODY_BYTES),
    ]
}

/// The limits that `limits` asks for, in the order in which they are checked.
pub open spec fn limit_values(limits: ProxyLimitsOptions) -> Seq<Option<u32>> {
    seq![
        limit_value(limits.max_uri_size, defaults::MAX_URI_BYTES as u32),
        limit_value(limits.max_request_headers, defaults::MAX_REQUEST_HEADERS as u32),
        limit_value(limits.max_single_header_size, defaults::MAX_SINGLE_HEADER_BYTES as u32),
        limit_value(limits.max_request_header_size, defaults::MAX_REQUEST_HEADER_BYTES as u32),
        limit_value(limits.max_request_body_size, defaults::MAX_REQUEST_BODY_BYTES as u32),
    ]
}

/// The names of the limits, in the same order.
pub open spec fn limit_fields() -> Seq<Seq<char>> {
    seq![
        "limits.maxUriSize"@,
        "limits.maxRequestHeaders"@,
        "limits.maxSingleHeaderSize"@,
        "limits.maxRequestHeaderSize"@,
        "limits.maxRequestBodySize"@,
    ]
}

/// The check of limit number `i` with the value `v`.
pub open spec fn limit_check(i: int, v: u32) -> ProxyLimitCheckParsed {
    if i == 0 {
        ProxyLimitCheckParsed::UriBytes(v as usize)
    } else if i == 1 {
        ProxyLimitCheckParsed::RequestHeaders(v as usize)
    } else if i == 2 {
        ProxyLimitCheckParsed::SingleHeaderBytes(v as usize)
    } else if i == 3 {
        ProxyLimitCheckParsed::RequestHeaderBytes(v as usize)
    } else {
        ProxyLimitCheckParsed::RequestBodyBytes(v as u64)
    }
}

/// The checks for the first `n` limits: one for each that is not switched off.
pub open spec fn limit_checks(values: Seq<Option<u32>>, n: int) -> Seq<ProxyLimitCheckParsed>
    decreases n,
{
    if n <= 0 {
        Seq::empty()
    } else {
        match values[n - 1] {
            Some(v) => limit_checks(values, n - 1).push(limit_check(n - 1, v)),
            None => limit_checks(values, n - 1),
        }
    }
}

/// The first value from number `i` on that is zero, if any.
pub open spec fn first_zero(values: Seq<Option<u32>>, i: int) -> Option<int>
    decreases values.len() - i,
{
    if i >= values.len() {
        None
    } else if values[i] == Some(0u32) {
        Some(i)
    } else {
        first_zero(values, i + 1)
    }
}

/// The failure of the limits: the first one that is zero.
pub open spec fn limits_failure(limits: Option<Nullable<ProxyLimitsOptions>>) -> Option<Failure> {
    match limits {
        Some(Nullable::Value(l)) => match first_zero(limit_values(l), 0) {
            Some(i) => Some(not_positive(limit_fields()[i])),
            None => None,
        },
        _ => None,
    }
}

/// The checks that `limits` asks for.
pub open spec fn limits_checks(limits: Option<Nullable<ProxyLimitsOptions>>) -> Seq<
    ProxyLimitCheckParsed,
> {
    match limits {
        None => standard_checks(),
        Some(Nullable::Null) => Seq::empty(),
        Some(Nullable::Value(l)) => limit_checks(limit_values(l), 5),
    }
}

impl ProxyLimitsOptionsParsed {
    /// The checks, in order.
    pub open spec fn checks(self) -> Seq<ProxyLimitCheckParsed> {
        match self {
            ProxyLimitsOptionsParsed::Disabled => Seq::empty(),
            ProxyLimitsOptionsParsed::Enabled { checks } => checks@,
        }
    }
}

/// The checks that stand when nothing is said about limits.
pub fn default_limit_checks() -> (r: ProxyLimitsOptionsParsed)
    ensures
        r is Enabled,
        r.checks() == standard_checks(),
{
    ProxyLimitsOptionsParsed::Enabled {
        checks: vec![
            ProxyLimitCheckParsed::UriBytes(defaults::MAX_URI_BYTES),
            ProxyLimitCheckParsed::RequestHeaders(defaults::MAX_REQUEST_HEADERS),
            ProxyLimitCheckParsed::SingleHeaderBytes(defaults::MAX_SINGLE_HEADER_BYTES),
            ProxyLimitCheckParsed::RequestHeaderBytes(defaults::MAX_REQUEST_HEADER_BYTES),
            ProxyLimitCheckParsed::RequestBodyBytes(defaults::MAX_REQUEST_BODY_BYTES),
        ],
    }
}

/// Reads the limits.
pub fn parse_limits_options(limits: Option<Nullable<ProxyLimitsOptions>>) -> (r: Result<
    ProxyLimitsOptionsParsed,
    JsError,
>)
    ensures
        (match r {
            Ok(parsed) => {
                &&& limits_failure(limits) is None
                &&& parsed.checks() == limits_checks(limits)
                &&& parsed is Disabled <==> limits_checks(limits).len() == 0
            },
            Err(e) => limits_failure(limits) == Some(e@),
        }),
{
    let limits = match limits {
        None => return Ok(default_limit_checks()),
        Some(Nullable::Null) => return Ok(ProxyLimitsOptionsParsed::Disabled),
        Some(Nullable::Value(limits)) => limits,
    };
    let ghost values = limit_values(limits);
    proof {
        reveal_with_fuel(limit_checks, 6);
        reveal_with_fuel(first_zero, 6);
    }
    let mut checks: Vec<ProxyLimitCheckParsed> = Vec::new();
    match parse_nullable_positive_usize(
        "limits.maxUriSize",
        limits.max_uri_size,
        defaults::MAX_URI_BYTES,
    ) {
        Ok(Some(v)) => checks.push(ProxyLimitCheckParsed::UriBytes(v)),
        Ok(None) => {},
        Err(e) => return Err(e),
    }
    assert(checks@ =~= limit_checks(values, 1));
    match parse_nullable_positive_usize(
        "limits.maxRequestHeaders",
        limits.max_request_headers,
        defaults::MAX_REQUEST_HEADERS,
    ) {
        Ok(Some(v)) => checks.push(ProxyLimitCheckParsed::RequestHeaders(v)),
        Ok(None) => {},
        Err(e) => return Err(e),
    }
    assert(checks@ =~= limit_checks(values, 2));
    match parse_nullable_positive_usize(
        "limits.maxSingleHeaderSize",
        limits.max_single_header_size,
        defaults::MAX_SINGLE_HEADER_BYTES,
    ) {
        Ok(Some(v)) => checks.push(ProxyLimitCheckParsed::SingleHeaderBytes(v)),
        Ok(None) => {},
        Err(e) => return Err(e),
    }
    assert(checks@ =~= limit_checks(values, 3));
    match parse_nullable_positive_usize(
        "limits.maxRequestHeaderSize",
        limits.max_request_header_size,
        defaults::MAX_REQUEST_HEADER_BYTES,
    ) {
        Ok(Some(v)) => checks.push(ProxyLimitCheckParsed::RequestHeaderBytes(v)),
        Ok(None) => {},
        Err(e) => return Err(e),
    }
    assert(checks@ =~= limit_checks(values, 4));
    match parse_nullable_positive_u64(
        "limits.maxRequestBodySize",
        limits.max_request_body_size,
        defaults::MAX_REQUEST_BODY_BYTES,
    ) {
        Ok(Some(v)) => checks.push(ProxyLimitCheckParsed::RequestBodyBytes(v)),
        Ok(None) => {},
        Err(e) => return Err(e),
    }
    assert(checks@ =~= limit_checks(values, 5));
    if checks.len() == 0 {
        Ok(ProxyLimitsOptionsParsed::Disabled)
    } else {
        Ok(ProxyLimitsOptionsParsed::Enabled { checks })
    }
}

/// The timeouts that `timeouts` asks for, in the order in which they are read.
pub open spec fn timeout_values(timeouts: ProxyTimeoutOptions) -> Seq<Option<u32>> {
    seq![
        Some(value_or(timeouts.downstream_header, defaults::DOWNSTREAM_HEADER_TIMEOUT_MS)),
        Some(value_or(timeouts.downstream_body_idle, defaults::DOWNSTREAM_BODY_IDLE_TIMEOUT_MS)),
        Some(value_or(timeouts.upstream_connect, defaults::UPSTREAM_CONNECT_TIMEOUT_MS)),
        Some(value_or(timeouts.upstream_read, defaults::UPSTREAM_READ_TIMEOUT_MS)),
        Some(value_or(timeouts.upstream_write, defaults::UPSTREAM_WRITE_TIMEOUT_MS)),
        Some(
            value_or(
                timeouts.downstream_keep_alive,
                defaults::DOWNSTREAM_KEEP_ALIVE_TIMEOUT_SECONDS,
            ),
        ),
    ]
}

/// The names of the timeouts, in the same order.
pub open spec fn timeout_fields() -> Seq<Seq<char>> {
    seq![
        "timeouts.downstreamHeader"@,
        "timeouts.downstreamBodyIdle"@,
        "timeouts.upstreamConnect"@,
        "timeouts.upstreamRead"@,
        "timeouts.upstreamWrite"@,
        "timeouts.downstreamKeepAlive"@,
    ]
}

/// The failure of the timeouts: the first one that is zero.
pub open spec fn timeouts_failure(timeouts: Option<ProxyTimeoutOptions>) -> Option<Failure> {
    match timeouts {
        Some(t) => match first_zero(timeout_values(t), 0) {
            Some(i) => Some(not_positive(timeout_fields()[i])),
            None => None,
        },
        None => None,
    }
}

/// The timeouts that `timeouts` asks for.
pub open spec fn timeouts_parsed(
    timeouts: Option<ProxyTimeoutOptions>,
) -> ProxyTimeoutOptionsParsed {
    match timeouts {
        None => ProxyTimeoutOptionsParsed {
            downstream_header_timeout_ms: defaults::DOWNSTREAM_HEADER_TIMEOUT_MS,
            downstream_body_idle_timeout_ms: defaults::DOWNSTREAM_BODY_IDLE_TIMEOUT_MS,
            upstream_connect_timeout_ms: defaults::UPSTREAM_CONNECT_TIMEOUT_MS,
            upstream_read_timeout_ms: defaults::UPSTREAM_READ_TIMEOUT_MS,
            upstream_write_timeout_ms: defaults::UPSTREAM_WRITE_TIMEOUT_MS,
            downstream_keep_alive_timeout_seconds: defaults::DOWNSTREAM_KEEP_ALIVE_TIMEOUT_SECONDS,
        },
        Some(t) => {
            let values = timeout_values(t);
            ProxyTimeoutOptionsParsed {
                downstream_header_timeout_ms: values[0]->0,
                downstream_body_idle_timeout_ms: values[1]->0,
                upstream_connect_timeout_ms: values[2]->0,
                upstream_read_timeout_ms: values[3]->0,
                upstream_write_timeout_ms: values[4]->0,
                downstream_keep_alive_timeout_seconds: values[5]->0,
            }
        },
    }
}

/// Reads the timeouts.
pub fn parse_timeout_options(timeouts: Option<ProxyTimeoutOptions>) -> (r: Result<
    ProxyTimeoutOptionsParsed,
    JsError,
>)
    ensures
        (match r {
            Ok(parsed) => timeouts_failure(timeouts) is None && parsed == timeouts_parsed(timeouts),
            Err(e) => timeouts_failure(timeouts) == Some(e@),
        }),
{
    let timeouts = match timeouts {
        None => return Ok(
            ProxyTimeoutOptionsParsed {
                downstream_header_timeout_ms: defaults::DOWNSTREAM_HEADER_TIMEOUT_MS,
                downstream_body_idle_timeout_ms: defaults::DOWNSTREAM_BODY_IDLE_TIMEOUT_MS,
                upstream_connect_timeout_ms: defaults::UPSTREAM_CONNECT_TIMEOUT_MS,
                upstream_read_timeout_ms: defaults::UPSTREAM_READ_TIMEOUT_MS,
                upstream_write_timeout_ms: defaults::UPSTREAM_WRITE_TIMEOUT_MS,
                downstream_keep_alive_timeout_seconds: defaults::DOWNSTREAM_KEEP_ALIVE_TIMEOUT_SECONDS,
            },
        ),
        Some(timeouts) => timeouts,
    };
    proof {
        reveal_with_fuel(first_zero, 7);
    }
    Ok(
        ProxyTimeoutOptionsParsed {
            downstream_header_timeout_ms: parse_positive_u32(
                "timeouts.downstreamHeader",
                timeouts.downstream_header,
                defaults::DOWNSTREAM_HEADER_TIMEOUT_MS,
            )?,
            downstream_body_idle_timeout_ms: parse_positive_u32(
                "timeouts.downstreamBodyIdle",
                timeouts.downstream_body_idle,
                defaults::DOWNSTREAM_BODY_IDLE_TIMEOUT_MS,
            )?,
            upstream_connect_timeout_ms: parse_positive_u32(
                "timeouts.upstreamConnect",
                timeouts.upstream_connect,
                defaults::UPSTREAM_CONNECT_TIMEOUT_MS,
            )?,
            upstream_read_timeout_ms: parse_positive_u32(
                "timeouts.upstreamRead",
                timeouts.upstream_read,
                defaults::UPSTREAM_READ_TIMEOUT_MS,
            )?,
            upstream_write_timeout_ms: parse_positive_u32(
                "timeouts.upstreamWrite",
                timeouts.upstream_write,
                defaults::UPSTREAM_WRITE_TIMEOUT_MS,
            )?,
            downstream_keep_alive_timeout_seconds: parse_positive_u32(
                "timeouts.downstreamKeepAlive",
                timeouts.downstream_keep_alive,
                defaults::DOWNSTREAM_KEEP_ALIVE_TIMEOUT_SECONDS,
            )?,
        },
    )
}

/// A string option, or its default.
pub open spec fn text_or(value: Option<String>, default: Seq<char>) -> Seq<char> {
    match value {
        Some(s) => s@,
        None => default,
    }
}

pub open spec fn invalid_options(message: Seq<char>) -> Failure {
    type_failure(codes::INVALID_PROXY_OPTIONS@, message)
}

pub open spec fn invalid_application(message: Seq<char>) -> Failure {
    type_failure(codes::INVALID_APPLICATION_OPTIONS@, message)
}

/// The failure of the sticky session options: a name of white space alone, or a zero.
pub open spec fn sticky_failure(sticky: Option<StickySessionOptions>) -> Option<Failure> {
    match sticky {
        None => None,
        Some(s) => if text::trimmed(text_or(s.cookie_name, "nmt_affinity"@)).len() == 0 {
            Some(invalid_options("stickySessions.cookieName must be non-empty"@))
        } else if text::trimmed(text_or(s.header_name, "x-nmt-affinity-key"@)).len() == 0 {
            Some(invalid_options("stickySessions.headerName must be non-empty"@))
        } else if value_or(s.ttl_ms, defaults::STICKY_TTL_MS) == 0 {
            Some(invalid_options("stickySessions.ttlMs must be greater than 0"@))
        } else if value_or(s.max_entries, defaults::STICKY_MAX_ENTRIES) == 0 {
            Some(invalid_options("stickySessions.maxEntries must be greater than 0"@))
        } else {
            None
        },
    }
}

/// Whether `parsed` is what `sticky` asks for. Without options the sessions are disabled; with
/// options they are enabled unless the options say otherwise.
pub open spec fn sticky_parsed(
    sticky: Option<StickySessionOptions>,
    parsed: StickySessionOptionsParsed,
) -> bool {
    match sticky {
        None => {
            &&& !parsed.enabled
            &&& parsed.cookie_name@ == "nmt_affinity"@
            &&& parsed.header_name@ == "x-nmt-affinity-key"@
            &&& parsed.ttl_ms == defaults::STICKY_TTL_MS
            &&& parsed.max_entries == defaults::STICKY_MAX_ENTRIES
        },
        Some(s) => {
            &&& parsed.enabled == (s.enabled != Some(false))
            &&& parsed.cookie_name@ == text_or(s.cookie_name, "nmt_affinity"@)
            &&& parsed.header_name@ == text_or(s.header_name, "x-nmt-affinity-key"@)
            &&& parsed.ttl_ms == value_or(s.ttl_ms, defaults::STICKY_TTL_MS)
            &&& parsed.max_entries == value_or(s.max_entries, defaults::STICKY_MAX_ENTRIES)
        },
    }
}

/// Reads the sticky session options.
pub fn parse_sticky_session_options(sticky: Option<StickySessionOptions>) -> (r: Result<
    StickySessionOptionsParsed,
    JsError,
>)
    ensures
        (match r {
            Ok(parsed) => sticky_failure(sticky) is None && sticky_parsed(sticky, parsed),
            Err(e) => sticky_failure(sticky) == Some(e@),
        }),
{
    let sticky = match sticky {
        None => return Ok(
            StickySessionOptionsParsed {
                enabled: false,
                cookie_name: "nmt_affinity".to_owned(),
                header_name: "x-nmt-affinity-key".to_owned(),
                ttl_ms: defaults::STICKY_TTL_MS,
                max_entries: defaults::STICKY_MAX_ENTRIES as usize,
            },
        ),
        Some(sticky) => sticky,
    };
    let enabled = match sticky.enabled {
        Some(enabled) => enabled,
        None => true,
    };
    let cookie_name = match sticky.cookie_name {
        Some(name) => name,
        None => "nmt_affinity".to_owned(),
    };
    let header_name = match sticky.header_name {
        Some(name) => name,
        None => "x-nmt-affinity-key".to_owned(),
    };
    let ttl_ms: u32 = match sticky.ttl_ms {
        Some(v) => v,
        None => defaults::STICKY_TTL_MS,
    };
    let max_entries: u32 = match sticky.max_entries {
        Some(v) => v,
        None => defaults::STICKY_MAX_ENTRIES,
    };
    if text::trim(cookie_name.as_str()).is_empty() {
        return throw_type_error(
            codes::INVALID_PROXY_OPTIONS,
            "stickySessions.cookieName must be non-empty".to_owned(),
        );
    }
    if text::trim(header_name.as_str()).is_empty() {
        return throw_type_error(
            codes::INVALID_PROXY_OPTIONS,
            "stickySessions.headerName must be non-empty".to_owned(),
        );
    }
    if ttl_ms == 0 {
        return throw_type_error(
            codes::INVALID_PROXY_OPTIONS,
            "stickySessions.ttlMs must be greater than 0".to_owned(),
        );
    }
    if max_entries == 0 {
        return throw_type_error(
            codes::INVALID_PROXY_OPTIONS,
            "stickySessions.maxEntries must be greater than 0".to_owned(),
        );
    }
    Ok(
        StickySessionOptionsParsed {
            enabled,
            cookie_name,
            header_name,
            ttl_ms,
            max_entries: max_entries as usize,
        },
    )
}

/// Whether `label` can stand between the dots of a hostname.
pub open spec fn label_ok(label: Seq<char>) -> bool {
    &&& 0 < label.len() <= 63
    &&& label.first() != '-'
    &&& label.last() != '-'
    &&& forall|i: int|
        0 <= i < label.len() ==> text::ascii_alphanumeric(#[trigger] label[i]) || label[i] == '-'
}

/// Whether every label of `value` is one that a hostname can have.
pub open spec fn hostname_like(value: Seq<char>) -> bool {
    labels_ok(text::split(value, '.'))
}

pub open spec fn labels_ok(labels: Seq<Seq<char>>) -> bool {
    forall|i: int| 0 <= i < labels.len() ==> label_ok(#[trigger] labels[i])
}

fn label_valid(chars: &Vec<char>, from: usize, to: usize) -> (r: bool)
    requires
        from <= to <= chars@.len(),
    ensures
        r == label_ok(chars@.subrange(from as int, to as int)),
{
    let ghost label = chars@.subrange(from as int, to as int);
    if from == to || to - from > 63 || chars[from] == '-' || chars[to - 1] == '-' {
        return false;
    }
    let mut i: usize = from;
    while i < to
        invariant
            from <= i <= to <= chars@.len(),
            label == chars@.subrange(from as int, to as int),
            forall|j: int|
                0 <= j < i - from ==> text::ascii_alphanumeric(#[trigger] label[j]) || label[j]
                    == '-',
        decreases to - i,
    {
        let c = chars[i];
        let plain = ('0' <= c && c <= '9') || ('A' <= c && c <= 'Z') || ('a' <= c && c <= 'z');
        assert(label[i - from] == c);
        if !plain && c != '-' {
            return false;
        }
        i += 1;
    }
    true
}

/// Whether a value looks like a hostname.
pub fn is_hostname_like(value: &str) -> (r: bool)
    ensures
        r == hostname_like(value@),
{
    let chars = text::chars_of(value);
    let mut start: usize = 0;
    assert(chars@.skip(0) =~= chars@);
    loop
        invariant
            start <= chars@.len(),
            chars@ == value@,
            labels_ok(text::split(value@, '.')) == labels_ok(
                text::split(value@.skip(start as int), '.'),
            ),
        decreases chars@.len() - start,
    {
        let end = text::find_from(&chars, '.', start);
        let ghost rest = value@.skip(start as int);
        proof {
            text::lemma_first_behind(value@, '.', start as int, 0);
            assert(rest.take(end - start) =~= chars@.subrange(start as int, end as int));
            if end < chars@.len() {
                let tail = text::split(rest.skip(end - start + 1), '.');
                let all = text::split(rest, '.');
                assert(all == seq![rest.take(end - start)] + tail);
                assert(all[0] == rest.take(end - start));
                assert(rest.skip(end - start + 1) =~= value@.skip(end + 1));
                assert(labels_ok(all) == (label_ok(all[0]) && labels_ok(tail))) by {
                    assert forall|i: int| 0 <= i < tail.len() implies tail[i] == all[i + 1] by {}
                    if label_ok(all[0]) && labels_ok(tail) {
                        assert forall|i: int| 0 <= i < all.len() implies label_ok(
                            #[trigger] all[i],
                        ) by {
                            if i > 0 {
                                assert(all[i] == tail[i - 1]);
                            }
                        }
                    }
                    if labels_ok(all) {
                        assert forall|i: int| 0 <= i < tail.len() implies label_ok(
                            #[trigger] tail[i],
                        ) by {
                            assert(all[i + 1] == tail[i]);
                        }
                    }
                }
            } else {
                assert(rest.take(end - start) =~= rest);
                assert(text::split(rest, '.') =~= seq![rest]);
                assert(text::split(rest, '.')[0] == rest);
            }
        }
        if !label_valid(&chars, start, end) {
            return false;
        }
        if end == chars.len() {
            return true;
        }
        start = end + 1;
    }
}

/// The mathematical form of how an application is routed to.
pub enum Route {
    Subdomain(Seq<char>),
    Path(Seq<char>),
    Default,
}

/// The mathematical form of an application.
#[verifier::ext_equal]
pub struct App {
    pub name: Seq<char>,
    pub route: Route,
    pub sni: Option<Seq<char>>,
}

impl View for ApplicationRoutingParsed {
    type V = Route;

    open spec fn view(&self) -> Route {
        match self {
            ApplicationRoutingParsed::Subdomain { name } => Route::Subdomain(name@),
            ApplicationRoutingParsed::Path { name } => Route::Path(name@),
            ApplicationRoutingParsed::Default => Route::Default,
        }
    }
}

impl View for ApplicationOptionsParsed {
    type V = App;

    open spec fn view(&self) -> App {
        App { name: self.name@, route: self.routing@, sni: opt_text(self.sni) }
    }
}

/// The failure of an SNI: it is white space, or no hostname.
pub open spec fn sni_failure(sni: Option<String>) -> Option<Failure> {
    match sni {
        None => None,
        Some(s) => if text::trimmed(s@).len() == 0 {
            Some(invalid_application("ApplicationOptions.sni must be non-empty when provided"@))
        } else if !hostname_like(text::trimmed(s@)) {
            Some(invalid_application("ApplicationOptions.sni must be a hostname-like value"@))
        } else {
            None
        },
    }
}

/// The SNI that is kept.
pub open spec fn sni_kept(sni: Option<String>) -> Option<Seq<char>> {
    match sni {
        None => None,
        Some(s) => Some(text::trimmed(s@)),
    }
}

/// Reads an application's SNI.
pub fn parse_application_sni(sni: Option<String>) -> (r: Result<Option<String>, JsError>)
    ensures
        (match r {
            Ok(kept) => sni_failure(sni) is None && opt_text(kept) == sni_kept(sni),
            Err(e) => sni_failure(sni) == Some(e@),
        }),
{
    let sni = match sni {
        None => return Ok(None),
        Some(sni) => sni,
    };
    let sni = text::trim(sni.as_str());
    if sni.is_empty() {
        return throw_type_error(
            codes::INVALID_APPLICATION_OPTIONS,
            "ApplicationOptions.sni must be non-empty when provided".to_owned(),
        );
    }
    if !is_hostname_like(sni) {
        return throw_type_error(
            codes::INVALID_APPLICATION_OPTIONS,
            "ApplicationOptions.sni must be a hostname-like value".to_owned(),
        );
    }
    Ok(Some(sni.to_owned()))
}

/// The failure of a routing that lacks its name.
pub open spec fn name_missing(routing_type: Seq<char>) -> Failure {
    invalid_application(
        "ApplicationOptions.routing.name must be set for "@ + routing_type + " routing"@,
    )
}

/// Hands out the name of a routing.
pub fn require_routing_name(routing_type: &str, name: Option<String>) -> (r: Result<
    String,
    JsError,
>)
    ensures
        (match r {
            Ok(n) => name == Some(n),
            Err(e) => name is None && e@ == name_missing(routing_type@),
        }),
{
    match name {
        None => {
            let mut message = "ApplicationOptions.routing.name must be set for ".to_owned();
            message.append(routing_type);
            message.append(" routing");
            throw_type_error(codes::INVALID_APPLICATION_OPTIONS, message)
        },
        Some(name) => Ok(name),
    }
}

/// The failure of a routing.
pub open spec fn routing_failure(routing: ProxyApplicationRouting) -> Option<Failure> {
    match routing {
        ProxyApplicationRouting::Subdomain { name: None } => Some(name_missing("subdomain"@)),
        ProxyApplicationRouting::Path { name: None } => Some(name_missing("path"@)),
        _ => None,
    }
}

/// The route that a routing without failure asks for.
pub open spec fn routing_kept(routing: ProxyApplicationRouting) -> Route {
    match routing {
        ProxyApplicationRouting::Subdomain { name } => Route::Subdomain(name->0@),
        ProxyApplicationRouting::Path { name } => Route::Path(name->0@),
        ProxyApplicationRouting::Default => Route::Default,
    }
}

/// Reads a routing.
pub fn parse_routing(routing: ProxyApplicationRouting) -> (r: Result<
    ApplicationRoutingParsed,
    JsError,
>)
    ensures
        (match r {
            Ok(kept) => routing_failure(routing) is None && kept@ == routing_kept(routing),
            Err(e) => routing_failure(routing) == Some(e@),
        }),
{
    match routing {
        ProxyApplicationRouting::Default => Ok(ApplicationRoutingParsed::Default),
        ProxyApplicationRouting::Subdomain { name } => {
            let name = require_routing_name("subdomain", name)?;
            Ok(ApplicationRoutingParsed::Subdomain { name })
        },
        ProxyApplicationRouting::Path { name } => {
            let name = require_routing_name("path", name)?;
            Ok(ApplicationRoutingParsed::Path { name })
        },
    }
}

/// The failure of an application, taken by itself.
pub open spec fn application_failure(app: ApplicationOptions) -> Option<Failure> {
    match sni_failure(app.sni) {
        Some(failure) => Some(failure),
        None => routing_failure(app.routing),
    }
}

/// The application that options without failure ask for.
pub open spec fn application_kept(app: ApplicationOptions) -> App {
    App { name: app.name@, route: routing_kept(app.routing), sni: sni_kept(app.sni) }
}

/// Reads an application's options.
pub fn parse_application_options(app: ApplicationOptions) -> (r: Result<
    ApplicationOptionsParsed,
    JsError,
>)
    ensures
        (match r {
            Ok(kept) => application_failure(app) is None && kept@ == application_kept(app),
            Err(e) => application_failure(app) == Some(e@),
        }),
{
    let name = app.name;
    let sni = parse_application_sni(app.sni)?;
    let routing = parse_routing(app.routing)?;
    Ok(ApplicationOptionsParsed { name, routing, sni })
}

/// The mathematical forms of a list of applications.
pub open spec fn app_views(apps: Seq<ApplicationOptionsParsed>) -> Seq<App> {
    Seq::new(apps.len(), |i: int| apps[i]@)
}

/// Whether one of the first `n` applications is called `name`.
pub open spec fn name_taken(apps: Seq<App>, n: int, name: Seq<char>) -> bool {
    exists|j: int| 0 <= j < n && (#[trigger] apps[j]).name == name
}

/// Whether one of the first `n` applications has the subdomain `name`, whatever the case.
pub open spec fn subdomain_taken(apps: Seq<App>, n: int, name: Seq<char>) -> bool {
    exists|j: int|
        0 <= j < n && (#[trigger] apps[j]).route is Subdomain && text::lowered(
            apps[j].route->Subdomain_0,
        ) == text::lowered(name)
}

/// Whether one of the first `n` applications has the path `name`.
pub open spec fn path_taken(apps: Seq<App>, n: int, name: Seq<char>) -> bool {
    exists|j: int| 0 <= j < n && (#[trigger] apps[j]).route == Route::Path(name)
}

/// How many of the first `n` applications are defaults.
pub open spec fn default_count(apps: Seq<App>, n: int) -> int
    decreases n,
{
    if n <= 0 {
        0
    } else if apps[n - 1].route is Default {
        default_count(apps, n - 1) + 1
    } else {
        default_count(apps, n - 1)
    }
}

pub open spec fn duplicate_of(what: Seq<char>, name: Seq<char>) -> Failure {
    invalid_application("Duplicate "@ + what + " '"@ + name + "'"@)
}

/// The failure of application number `i`, given those before it.
pub open spec fn conflict_at(apps: Seq<App>, i: int) -> Option<Failure> {
    let app = apps[i];
    if name_taken(apps, i, app.name) {
        Some(duplicate_of("application name"@, app.name))
    } else {
        match app.route {
            Route::Default => None,
            Route::Subdomain(name) => if name.len() == 0 {
                Some(invalid_application("subdomain routing name must be non-empty"@))
            } else if subdomain_taken(apps, i, name) {
                Some(duplicate_of("subdomain routing name"@, name))
            } else {
                None
            },
            Route::Path(name) => if name.len() == 0 {
                Some(invalid_application("path routing name must be non-empty"@))
            } else if name.contains('/') {
                Some(invalid_application("path routing name must not contain '/'"@))
            } else if path_taken(apps, i, name) {
                Some(duplicate_of("path routing name"@, name))
            } else {
                None
            },
        }
    }
}

/// The failure of the applications from number `i` on: the first conflict, or else more than one
/// default.
pub open spec fn conflict_from(apps: Seq<App>, i: int) -> Option<Failure>
    decreases apps.len() - i,
{
    if i >= apps.len() {
        if default_count(apps, apps.len() as int) > 1 {
            Some(invalid_application("At most one application may use routing.type='default'"@))
        } else {
            None
        }
    } else {
        match conflict_at(apps, i) {
            Some(failure) => Some(failure),
            None => conflict_from(apps, i + 1),
        }
    }
}

fn duplicate_error(what: &str, name: &str) -> (r: JsError)
    ensures
        r@ == duplicate_of(what@, name@),
{
    let mut message = "Duplicate ".to_owned();
    message.append(what);
    message.append(" '");
    message.append(name);
    message.append("'");
    type_error(codes::INVALID_APPLICATION_OPTIONS, message)
}

fn is_name_taken(apps: &Vec<ApplicationOptionsParsed>, n: usize) -> (r: bool)
    requires
        n < apps@.len(),
    ensures
        r == name_taken(app_views(apps@), n as int, apps@[n as int].name@),
{
    let ghost views = app_views(apps@);
    let mut j: usize = 0;
    while j < n
        invariant
            j <= n < apps@.len(),
            views == app_views(apps@),
            forall|k: int| 0 <= k < j ==> (#[trigger] views[k]).name != apps@[n as int].name@,
        decreases n - j,
    {
        assert(views[j as int] == apps@[j as int]@);
        if apps[j].name == apps[n].name {
            return true;
        }
        j += 1;
    }
    false
}

fn is_subdomain_taken(apps: &Vec<ApplicationOptionsParsed>, n: usize, name: &str) -> (r: bool)
    requires
        n < apps@.len(),
    ensures
        r == subdomain_taken(app_views(apps@), n as int, name@),
{
    let ghost views = app_views(apps@);
    let key = text::to_lower(name);
    let mut j: usize = 0;
    while j < n
        invariant
            j <= n < apps@.len(),
            views == app_views(apps@),
            key@ == text::lowered(name@),
            forall|k: int|
                0 <= k < j ==> !((#[trigger] views[k]).route is Subdomain && text::lowered(
                    views[k].route->Subdomain_0,
                ) == text::lowered(name@)),
        decreases n - j,
    {
        assert(views[j as int] == apps@[j as int]@);
        if let ApplicationRoutingParsed::Subdomain { name: other } = &apps[j].routing {
            if text::to_lower(other.as_str()) == key {
                return true;
            }
        }
        j += 1;
    }
    false
}

fn is_path_taken(apps: &Vec<ApplicationOptionsParsed>, n: usize, name: &String) -> (r: bool)
    requires
        n < apps@.len(),
    ensures
        r == path_taken(app_views(apps@), n as int, name@),
{
    let ghost views = app_views(apps@);
    let mut j: usize = 0;
    while j < n
        invariant
            j <= n < apps@.len(),
            views == app_views(apps@),
            forall|k: int| 0 <= k < j ==> (#[trigger] views[k]).route != Route::Path(name@),
        decreases n - j,
    {
        assert(views[j as int] == apps@[j as int]@);
        if let ApplicationRoutingParsed::Path { name: other } = &apps[j].routing {
            if *other == *name {
                return true;
            }
        }
        j += 1;
    }
    false
}

/// Checks that the applications do not get in each other's way.
pub fn validate_applications(applications: &Vec<ApplicationOptionsParsed>) -> (r: Result<
    (),
    JsError,
>)
    ensures
        (match r {
            Ok(()) => conflict_from(app_views(applications@), 0) is None,
            Err(e) => conflict_from(app_views(applications@), 0) == Some(e@),
        }),
{
    let ghost views = app_views(applications@);
    let mut defaults_seen: usize = 0;
    let mut i: usize = 0;
    while i < applications.len()
        invariant
            i <= applications@.len(),
            views == app_views(applications@),
            defaults_seen <= i,
            defaults_seen == default_count(views, i as int),
            conflict_from(views, 0) == conflict_from(views, i as int),
        decreases applications@.len() - i,
    {
        let app = &applications[i];
        assert(views[i as int] == app@);
        if is_name_taken(applications, i) {
            return Err(duplicate_error("application name", app.name.as_str()));
        }
        match &app.routing {
            ApplicationRoutingParsed::Default => {
                defaults_seen += 1;
            },
            ApplicationRoutingParsed::Subdomain { name } => {
                if name.as_str().is_empty() {
                    return throw_type_error(
                        codes::INVALID_APPLICATION_OPTIONS,
                        "subdomain routing name must be non-empty".to_owned(),
                    );
                }
                if is_subdomain_taken(applications, i, name.as_str()) {
                    return Err(duplicate_error("subdomain routing name", name.as_str()));
                }
            },
            ApplicationRoutingParsed::Path { name } => {
                if name.as_str().is_empty() {
                    return throw_type_error(
                        codes::INVALID_APPLICATION_OPTIONS,
                        "path routing name must be non-empty".to_owned(),
                    );
                }
                let chars = text::chars_of(name.as_str());
                let slash = text::find_from(&chars, '/', 0);
                assert(name@.contains('/') <==> slash < chars@.len()) by {
                    if slash < chars@.len() {
                        assert(name@[slash as int] == '/');
                    }
                }
                if slash < chars.len() {
                    return throw_type_error(
                        codes::INVALID_APPLICATION_OPTIONS,
                        "path routing name must not contain '/'".to_owned(),
                    );
                }
                if is_path_taken(applications, i, name) {
                    return Err(duplicate_error("path routing name", name.as_str()));
                }
            },
        }
        i += 1;
    }
    if defaults_seen > 1 {
        return throw_type_error(
            codes::INVALID_APPLICATION_OPTIONS,
            "At most one application may use routing.type='default'".to_owned(),
        );
    }
    Ok(())
}

/// The failure of the first application from number `i` on that fails by itself.
pub open spec fn first_application_failure(apps: Seq<ApplicationOptions>, i: int) -> Option<
    Failure,
>
    decreases apps.len() - i,
{
    if i >= apps.len() {
        None
    } else {
        match application_failure(apps[i]) {
            Some(failure) => Some(failure),
            None => first_application_failure(apps, i + 1),
        }
    }
}

/// The applications that options without failure ask for.
pub open spec fn applications_kept(apps: Seq<ApplicationOptions>) -> Seq<App> {
    Seq::new(apps.len(), |i: int| application_kept(apps[i]))
}

/// The failure of the options: of an application by itself, of the applications together, of the
/// sticky sessions, of the limits, of the timeouts, in this order.
pub open spec fn options_failure(options: ProxyOptions) -> Option<Failure> {
    match first_application_failure(options.applications@, 0) {
        Some(failure) => Some(failure),
        None => match conflict_from(applications_kept(options.applications@), 0) {
            Some(failure) => Some(failure),
            None => match sticky_failure(options.sticky_sessions) {
                Some(failure) => Some(failure),
                None => match limits_failure(options.limits) {
                    Some(failure) => Some(failure),
                    None => timeouts_failure(options.timeouts),
                },
            },
        },
    }
}

/// Whether `parsed` is what the TLS options ask for. HTTP/2 is off unless it is asked for.
pub open spec fn tls_kept(
    tls: Option<ListenerTlsOptions>,
    parsed: Option<ListenerTlsOptionsParsed>,
) -> bool {
    match (tls, parsed) {
        (None, None) => true,
        (Some(t), Some(p)) => {
            &&& p.cert_path == t.cert_path
            &&& p.key_path == t.key_path
            &&& p.enable_h2 == (t.enable_h2 == Some(true))
        },
        _ => false,
    }
}

/// Whether `parsed` is what `options` ask for.
pub open spec fn options_kept(options: ProxyOptions, parsed: ProxyOptionsParsed) -> bool {
    &&& parsed.listen == options.listen
    &&& tls_kept(options.tls, parsed.tls)
    &&& app_views(parsed.applications@) == applications_kept(options.applications@)
    &&& parsed.health_check_interval_ms == value_or(
        options.health_check_interval_ms,
        defaults::HEALTH_CHECK_INTERVAL_MS,
    )
    &&& sticky_parsed(options.sticky_sessions, parsed.sticky_sessions)
    &&& parsed.limits.checks() == limits_checks(options.limits)
    &&& parsed.limits is Disabled <==> limits_checks(options.limits).len() == 0
    &&& parsed.timeouts == timeouts_parsed(options.timeouts)
}

/// Reads the options of a proxy.
pub fn parse_proxy_options(options: ProxyOptions) -> (r: Result<ProxyOptionsParsed, JsError>)
    ensures
        (match r {
            Ok(parsed) => options_failure(options) is None && options_kept(options, parsed),
            Err(e) => options_failure(options) == Some(e@),
        }),
{
    let tls = match options.tls {
        Some(tls) => Some(
            ListenerTlsOptionsParsed {
                cert_path: tls.cert_path,
                key_path: tls.key_path,
                enable_h2: match tls.enable_h2 {
                    Some(enable_h2) => enable_h2,
                    None => false,
                },
            },
        ),
        None => None,
    };
    let ghost apps = options.applications@;
    let mut applications: Vec<ApplicationOptionsParsed> = Vec::new();
    for app in it: options.applications
        invariant
            it.seq() == apps,
            first_application_failure(apps, 0) == first_application_failure(
                apps,
                it.index() as int,
            ),
            app_views(applications@) == applications_kept(apps).take(it.index() as int),
    {
        let ghost i = it.index() as int;
        match parse_application_options(app) {
            Ok(parsed) => {
                let ghost before = applications@;
                applications.push(parsed);
                assert(app_views(applications@) =~= app_views(before).push(parsed@));
                assert(applications_kept(apps).take(i + 1) =~= applications_kept(apps).take(
                    i,
                ).push(application_kept(app)));
            },
            Err(e) => {
                return Err(e);
            },
        }
    }
    assert(applications_kept(apps).take(apps.len() as int) =~= applications_kept(apps));
    validate_applications(&applications)?;
    let sticky_sessions = parse_sticky_session_options(options.sticky_sessions)?;
    let limits = parse_limits_options(options.limits)?;
    let timeouts = parse_timeout_options(options.timeouts)?;
    Ok(
        ProxyOptionsParsed {
            listen: options.listen,
            tls,
            applications,
            health_check_interval_ms: match options.health_check_interval_ms {
                Some(v) => v,
                None => defaults::HEALTH_CHECK_INTERVAL_MS,
            },
            sticky_sessions,
            limits,
            timeouts,
        },
    )
}

} // verus!
