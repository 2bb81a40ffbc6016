//! The failures that operations of this crate report.

use crate::text::concat2;
use vstd::prelude::*;
use vstd::string::*;

verus! {

/// Why an operation did not take place.
#[derive(Debug)]
pub enum Error {
    /// A profile, package or group that was named does not exist.
    NotFound(String),
    /// The operation is not allowed in the current state.
    InvalidOperation(String),
    /// The file system or the process environment did not cooperate.
    IoFailure(String),
    /// The configuration could not be loaded or saved.
    PersistenceFailure(String),
}

/// The kind of an [`Error`], without its message.
#[derive(Clone, Copy, Debug, PartialEq, Eq, Structural)]
pub enum ErrorKind {
    NotFound,
    InvalidOperation,
    IoFailure,
    PersistenceFailure,
}

impl Error {
    /// The kind of this error.
    pub open spec fn spec_kind(&self) -> ErrorKind {
        match self {
            Error::NotFound(_) => ErrorKind::NotFound,
            Error::InvalidOperation(_) => ErrorKind::InvalidOperation,
            Error::IoFailure(_) => ErrorKind::IoFailure,
            Error::PersistenceFailure(_) => ErrorKind::PersistenceFailure,
        }
    }

    /// The text that the error carries.
    pub open spec fn spec_detail(&self) -> Seq<char> {
        match self {
            Error::NotFound(s) => s@,
            Error::InvalidOperation(s) => s@,
            Error::IoFailure(s) => s@,
            Error::PersistenceFailure(s) => s@,
        }
    }

    /// The kind of this error.
    #[verifier::when_used_as_spec(spec_kind)]
    pub fn kind(&self) -> (r: ErrorKind)
        ensures
            r == self.spec_kind(),
    {
        match self {
            Error::NotFound(_) => ErrorKind::NotFound,
            Error::InvalidOperation(_) => ErrorKind::InvalidOperation,
            Error::IoFailure(_) => ErrorKind::IoFailure,
            Error::PersistenceFailure(_) => ErrorKind::PersistenceFailure,
        }
    }

    /// The error as one line of text: the kind, a colon and the detail.
    pub fn message(&self) -> (r: String)
        ensures
            r@ == error_message(self.spec_kind(), self.spec_detail()),
    {
        match self {
            Error::NotFound(s) => concat2("not found: ", s.as_str()),
            Error::InvalidOperation(s) => concat2("invalid operation: ", s.as_str()),
            Error::IoFailure(s) => concat2("I/O failure: ", s.as_str()),
            Error::PersistenceFailure(s) => concat2("persistence failure: ", s.as_str()),
        }
    }
}

/// The line of text for an error of the given kind and detail.
pub open spec fn error_message(kind: ErrorKind, detail: Seq<char>) -> Seq<char> {
    match kind {
        ErrorKind::NotFound => "not found: "@ + detail,
        ErrorKind::InvalidOperation => "invalid operation: "@ + detail,
        ErrorKind::IoFailure => "I/O failure: "@ + detail,
        ErrorKind::PersistenceFailure => "persistence failure: "@ + detail,
    }
}

} // verus!
