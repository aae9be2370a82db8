//! Why the listener could not be set up, as callers are told.

use vstd::prelude::*;
use vstd::string::*;

use super::lifecycle::{DeferredJsError, Rejection};
use crate::errors::codes;
use crate::options::ListenerTlsOptionsParsed;

verus! {

/// The step at which setting up the listener failed, and the reason that was given.
#[derive(Debug)]
pub enum SetupFailure {
    /// The address could not be bound.
    Bind(String),
    /// The address that was bound could not be read.
    Address(String),
    /// The socket could not be made non-blocking.
    Nonblocking(String),
}

/// The message for a failure to listen on `listen`.
pub open spec fn setup_message(listen: Seq<char>, failure: SetupFailure) -> Seq<char> {
    match failure {
        SetupFailure::Bind(reason) => "Failed to bind listener on '"@ + listen + "': "@ + reason@,
        SetupFailure::Address(reason) => "Failed to read bound listener address for '"@ + listen
            + "': "@ + reason@,
        SetupFailure::Nonblocking(reason) => "Failed to set listener nonblocking: "@ + reason@,
    }
}

/// The error of a listener that could not be set up.
pub fn listen_error(listen: &str, failure: SetupFailure) -> (r: DeferredJsError)
    ensures
        r@ == (Rejection {
            code: codes::LISTEN_BIND_FAILED@,
            message: setup_message(listen@, failure),
        }),
{
    let message = match failure {
        SetupFailure::Bind(reason) => {
            let mut message = "Failed to bind listener on '".to_owned();
            message.append(listen);
            message.append("': ");
            message.append(reason.as_str());
            message
        },
        SetupFailure::Address(reason) => {
            let mut message = "Failed to read bound listener address for '".to_owned();
            message.append(listen);
            message.append("': ");
            message.append(reason.as_str());
            message
        },
        SetupFailure::Nonblocking(reason) => {
            let mut message = "Failed to set listener nonblocking: ".to_owned();
            message.append(reason.as_str());
            message
        },
    };
    DeferredJsError::generic(codes::LISTEN_BIND_FAILED, message)
}

/// The error of a listener whose certificate or key could not be used.
pub fn tls_error(tls: &ListenerTlsOptionsParsed, reason: &str) -> (r: DeferredJsError)
    ensures
        r@ == (Rejection {
            code: codes::INVALID_PROXY_OPTIONS@,
            message: "Failed to configure TLS using cert '"@ + tls.cert_path@ + "' and key '"@
                + tls.key_path@ + "': "@ + reason@,
        }),
{
    let mut message = "Failed to configure TLS using cert '".to_owned();
    message.append(tls.cert_path.as_str());
    message.append("' and key '");
    message.append(tls.key_path.as_str());
    message.append("': ");
    message.append(reason);
    DeferredJsError::type_error(codes::INVALID_PROXY_OPTIONS, message)
}

} // verus!
