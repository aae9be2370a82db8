//! The errors that callers see.

use vstd::prelude::*;

pub mod codes;
pub mod laws;

verus! {

/// The class of an error object.
#[derive(Debug, Clone, Copy, PartialEq, Eq, Structural)]
pub enum ErrorClass {
    /// The caller passed something wrong.
    TypeError,
    /// Anything else.
    Error,
}

/// An error that is thrown at the caller.
#[derive(Debug)]
pub struct JsError {
    pub class: ErrorClass,
    pub code: &'static str,
    pub message: String,
}

/// The mathematical form of a [`JsError`].
#[verifier::ext_equal]
pub struct Failure {
    pub class: ErrorClass,
    pub code: Seq<char>,
    pub message: Seq<char>,
}

impl View for JsError {
    type V = Failure;

    open spec fn view(&self) -> Failure {
        Failure { class: self.class, code: self.code@, message: self.message@ }
    }
}

/// A `TypeError` with this code and message.
pub open spec fn type_failure(code: Seq<char>, message: Seq<char>) -> Failure {
    Failure { class: ErrorClass::TypeError, code, message }
}

/// An `Error` with this code and message.
pub open spec fn generic_failure(code: Seq<char>, message: Seq<char>) -> Failure {
    Failure { class: ErrorClass::Error, code, message }
}

pub fn type_error(code: &'static str, message: String) -> (r: JsError)
    ensures
        r@ == type_failure(code@, message@),
{
    JsError { class: ErrorClass::TypeError, code, message }
}

pub fn generic_error(code: &'static str, message: String) -> (r: JsError)
    ensures
        r@ == generic_failure(code@, message@),
{
    JsError { class: ErrorClass::Error, code, message }
}

pub fn throw_type_error<T>(code: &'static str, message: String) -> (r: Result<T, JsError>)
    ensures
        r matches Err(e) && e@ == type_failure(code@, message@),
{
    Err(type_error(code, message))
}

} // verus!
