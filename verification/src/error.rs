//! The kinds of failure that an operation on the store or the cache reports.

use vstd::prelude::*;

verus! {

/// What went wrong, as far as a caller has to tell one failure from another.
#[derive(Clone, Copy, Debug, PartialEq, Eq, Structural)]
pub enum ErrorKind {
    /// The backend could not be reached or its schema could not be created at startup.
    Initialization,
    /// The backend dropped the connection or lost a lock; trying again may succeed.
    TransientBackend,
    /// An argument is not a value that may be persisted.
    Validation,
    /// A stored identifier does not decode to a value of its type.
    Decode,
    /// More than one row exists where the schema allows at most one.
    Consistency,
}

impl ErrorKind {
    /// Failures after which the process should not go on.
    pub open spec fn fatal(self) -> bool {
        self is Initialization || self is Consistency
    }

    /// Failures that a retry policy may answer with another attempt.
    pub open spec fn transient(self) -> bool {
        self is TransientBackend
    }

    pub fn is_fatal(&self) -> (b: bool)
        ensures
            b == self.fatal(),
    {
        match self {
            ErrorKind::Initialization => true,
            ErrorKind::Consistency => true,
            _ => false,
        }
    }

    pub fn is_transient(&self) -> (b: bool)
        ensures
            b == self.transient(),
    {
        match self {
            ErrorKind::TransientBackend => true,
            _ => false,
        }
    }
}

} // verus!
