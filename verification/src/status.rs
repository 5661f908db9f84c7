//! What a request is answered with when it fails.

use vstd::prelude::*;

verus! {

/// Kinds of failure of a remote call.
#[derive(Copy, Clone, Debug, PartialEq, Eq, Structural)]
pub enum Code {
    /// The operation was cancelled.
    Cancelled,
    /// An error without a kind.
    Unknown,
    /// The client asked for something that makes no sense.
    InvalidArgument,
    /// The deadline went by.
    DeadlineExceeded,
    /// What was asked for does not exist.
    NotFound,
    /// What was to be made exists.
    AlreadyExists,
    /// The caller may not do this.
    PermissionDenied,
    /// Some resource ran out.
    ResourceExhausted,
    /// The system is not in the state for this.
    FailedPrecondition,
    /// The operation was given up.
    Aborted,
    /// Beyond the valid range.
    OutOfRange,
    /// Not supported here.
    Unimplemented,
    /// Something is broken.
    Internal,
    /// Currently not to be had.
    Unavailable,
    /// Data was lost.
    DataLoss,
    /// The caller did not say who they are.
    Unauthenticated,
}

/// Why a remote call failed.
#[derive(Debug)]
pub struct Status {
    /// The kind of failure.
    pub code: Code,
    /// What is told about it.
    pub message: String,
}

/// The status as its kind and its text.
pub open spec fn is_status(status: Status, code: Code, message: Seq<char>) -> bool {
    status.code == code && status.message@ == message
}

impl Status {
    /// A status of this kind with this text.
    pub fn new(code: Code, message: &str) -> (r: Self)
        ensures
            is_status(r, code, message@),
    {
        Status { code, message: message.to_owned() }
    }

    /// The same status once more.
    pub fn copy(&self) -> (r: Self)
        ensures
            is_status(r, self.code, self.message@),
    {
        Status::new(self.code, self.message.as_str())
    }
}

} // verus!
