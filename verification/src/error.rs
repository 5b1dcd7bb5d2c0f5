//! The error that the engine reports to its callers.

use vstd::prelude::*;

verus! {

/// What sort of failure an [`Error`] is.
#[derive(Clone, Copy, Debug, PartialEq, Eq, Structural)]
pub enum ErrorKind {
    InvalidInput,
    InvalidData,
    Unsupported,
    PermissionDenied,
    AlreadyExists,
    NotFound,
    WouldBlock,
    Interrupted,
    Other,
}

/// A refusal or failure, with the text shown to the user.
#[derive(Debug)]
pub struct Error {
    pub kind: ErrorKind,
    pub message: String,
}

impl Error {
    /// Whether this is the error of the given kind with the given text.
    pub open spec fn says(self, kind: ErrorKind, message: Seq<char>) -> bool {
        self.kind == kind && self.message@ == message
    }

    pub fn new(kind: ErrorKind, message: &str) -> (error: Error)
        ensures
            error.says(kind, message@),
    {
        Error { kind, message: message.to_owned() }
    }
}

} // verus!
