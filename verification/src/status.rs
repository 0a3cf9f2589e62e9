//! The status that a failed service call is answered with: a gRPC code and a
//! human-readable message.
use vstd::prelude::*;

verus! {

/// The gRPC status codes this service answers with.
#[derive(Debug, PartialEq, Eq, Structural, Clone, Copy)]
pub enum Code {
    InvalidArgument,
    NotFound,
    AlreadyExists,
    PermissionDenied,
    Unauthenticated,
    FailedPrecondition,
    Unimplemented,
    Internal,
}

/// A failed call: its code and message.
#[derive(Debug, Clone)]
pub struct Status {
    pub code: Code,
    pub message: String,
}

impl Status {
    /// A status with the given code and message.
    pub fn new(code: Code, message: &str) -> (res: Status)
        ensures
            res.code == code,
            res.message@ == message@,
    {
        Status { code, message: message.to_owned() }
    }

    /// A status whose message is `prefix` followed by `detail`.
    pub fn with_detail(code: Code, prefix: &str, detail: &str) -> (res: Status)
        ensures
            res.code == code,
            res.message@ == prefix@ + detail@,
    {
        let mut message = prefix.to_owned();
        message.append(detail);
        Status { code, message }
    }

    /// The code of this status.
    pub fn code(&self) -> (res: Code)
        ensures
            res == self.code,
    {
        self.code
    }

    /// The message of this status.
    pub fn message(&self) -> (res: &str)
        ensures
            res@ == self.message@,
    {
        self.message.as_str()
    }
}

} // verus!
