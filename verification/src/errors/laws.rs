//! What callers see of errors.

use vstd::prelude::*;

use super::{codes, generic_error, throw_type_error, type_error, ErrorClass, JsError};

verus! {

/// An error has the class that it was made with, and the code and the message that it was given.
pub proof fn law_errors_are_told(
    code: &'static str,
    message: String,
    wrong: JsError,
    other: JsError,
    thrown: Result<(), JsError>,
)
    requires
        call_ensures(type_error, (code, message), wrong),
        call_ensures(generic_error, (code, message), other),
        call_ensures(throw_type_error::<()>, (code, message), thrown),
    ensures
        wrong.class == ErrorClass::TypeError,
        wrong.code@ == code@,
        wrong.message@ == message@,
        other.class == ErrorClass::Error,
        other.code@ == code@,
        other.message@ == message@,
        thrown is Err,
        thrown->Err_0.class == ErrorClass::TypeError,
        thrown->Err_0.code@ == code@,
        thrown->Err_0.message@ == message@,
{
}

/// The codes that callers can rely on.
pub proof fn law_codes_are_stable()
    ensures
        codes::INVALID_PROXY_OPTIONS@ == "InvalidProxyOptions"@,
        codes::INVALID_APPLICATION_OPTIONS@ == "InvalidApplicationOptions"@,
        codes::UNKNOWN_APPLICATION@ == "UnknownApplication"@,
        codes::ALREADY_STARTED@ == "AlreadyStarted"@,
        codes::LISTEN_BIND_FAILED@ == "ListenBindFailed"@,
        codes::UNSUPPORTED_UPSTREAM_TYPE@ == "UnsupportedUpstreamType"@,
        codes::UPSTREAM_ALREADY_EXISTS@ == "UpstreamAlreadyExists"@,
        codes::UPSTREAM_NOT_FOUND@ == "UpstreamNotFound"@,
        codes::GENERIC_FAILURE@ == "GenericFailure"@,
{
}

} // verus!
