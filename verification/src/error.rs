//! The errors the service answers with: a status code and a message.
use vstd::prelude::*;

use crate::text::owned;

verus! {

/// The status codes the service uses.
#[derive(Clone, Copy, Debug, PartialEq, Eq, Structural)]
pub enum Code {
    InvalidArgument,
    NotFound,
    PermissionDenied,
    Unauthenticated,
    Internal,
}

/// A refused or failed request.
#[derive(Debug)]
pub struct ServiceError {
    pub code: Code,
    pub message: String,
}

impl View for ServiceError {
    type V = (Code, Seq<char>);

    open spec fn view(&self) -> (Code, Seq<char>) {
        (self.code, self.message@)
    }
}

/// A result as its code and message, for contracts.
pub open spec fn outcome<T>(r: Result<T, ServiceError>) -> Result<(), (Code, Seq<char>)> {
    match r {
        Ok(_) => Ok(()),
        Err(e) => Err(e@),
    }
}

impl ServiceError {
    pub fn new(code: Code, message: String) -> (r: ServiceError)
        ensures
            r.code == code,
            r.message == message,
    {
        ServiceError { code, message }
    }

    /// An error with a fixed message.
    pub fn with_text(code: Code, message: &str) -> (r: ServiceError)
        ensures
            r@ == (code, message@),
    {
        ServiceError { code, message: owned(message) }
    }

    /// The message of the error.
    pub fn message(&self) -> (r: &str)
        ensures
            r@ == self.message@,
    {
        self.message.as_str()
    }

    /// The status code of the error.
    pub fn code(&self) -> (r: Code)
        ensures
            r == self.code,
    {
        self.code
    }
}

} // verus!
