//! The error an RPC answers with: a code, a machine-readable reason and a message.
use vstd::prelude::*;
use vstd::string::*;

verus! {

/// The class of an error.
#[derive(Clone, Copy, Debug, PartialEq, Eq, Structural)]
pub enum Code {
    Cancelled,
    InvalidArgument,
    NotFound,
    AlreadyExists,
    PermissionDenied,
    ResourceExhausted,
    FailedPrecondition,
    Unimplemented,
    Internal,
    Unavailable,
    Unauthenticated,
}

/// An error answer. `reason` is empty where the error carries no machine-readable reason.
#[derive(Debug)]
pub struct Status {
    pub code: Code,
    pub reason: String,
    pub message: String,
}

/// What a [`Status`] says.
pub struct StatusView {
    pub code: Code,
    pub reason: Seq<char>,
    pub message: Seq<char>,
}

impl View for Status {
    type V = StatusView;

    open spec fn view(&self) -> StatusView {
        StatusView { code: self.code, reason: self.reason@, message: self.message@ }
    }
}

/// A status with a message only.
pub open spec fn plain(code: Code, message: Seq<char>) -> StatusView {
    StatusView { code, reason: Seq::empty(), message }
}

/// A status with a reason and a message.
pub open spec fn tagged(code: Code, reason: Seq<char>, message: Seq<char>) -> StatusView {
    StatusView { code, reason, message }
}

impl Status {
    /// A status with a message only.
    pub fn new(code: Code, message: String) -> (s: Status)
        ensures
            s@ == plain(code, message@),
    {
        Status { code, reason: String::new(), message }
    }

    /// A status whose message is fixed.
    pub fn fixed(code: Code, message: &str) -> (s: Status)
        ensures
            s@ == plain(code, message@),
    {
        Status { code, reason: String::new(), message: message.to_owned() }
    }

    /// A status with a machine-readable reason.
    pub fn with_reason(code: Code, reason: &str, message: String) -> (s: Status)
        ensures
            s@ == tagged(code, reason@, message@),
    {
        Status { code, reason: reason.to_owned(), message }
    }

    /// An internal error.
    pub fn internal(message: String) -> (s: Status)
        ensures
            s@ == tagged(Code::Internal, "INTERNAL"@, message@),
    {
        Status::with_reason(Code::Internal, "INTERNAL", message)
    }
}

} // verus!
