//! The stable codes of the errors that callers see.

use vstd::prelude::*;

verus! {

pub const INVALID_PROXY_OPTIONS: &'static str = "InvalidProxyOptions";

pub const INVALID_APPLICATION_OPTIONS: &'static str = "InvalidApplicationOptions";

pub const UNKNOWN_APPLICATION: &'static str = "UnknownApplication";

pub const ALREADY_STARTED: &'static str = "AlreadyStarted";

pub const LISTEN_BIND_FAILED: &'static str = "ListenBindFailed";

pub const UNSUPPORTED_UPSTREAM_TYPE: &'static str = "UnsupportedUpstreamType";

pub const UPSTREAM_ALREADY_EXISTS: &'static str = "UpstreamAlreadyExists";

pub const UPSTREAM_NOT_FOUND: &'static str = "UpstreamNotFound";

/// The code of errors that are about the proxy itself and that callers have no part in.
pub const GENERIC_FAILURE: &'static str = "GenericFailure";

} // verus!
