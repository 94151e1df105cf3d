//! What can go wrong around a submission.

use vstd::prelude::*;

verus! {

/// Why a request could not be served. A submission that fails the judge is
/// no error: it is the outcome `Rejected`.
#[derive(Clone, Copy, Debug, PartialEq, Eq, Structural)]
pub enum Error {
    /// The language, the challenge or the record asked for is not known.
    NotFound,
    /// The judge could not run the code. Nothing is known about the code,
    /// and nothing was stored.
    JudgeFailure,
    /// Two records claim the same slot.
    StoreConflict,
}

impl Error {
    /// Whether the same request may succeed when it is made again: true of
    /// the failures of the judge and of the store, false of what is not
    /// known.
    pub open spec fn spec_is_retryable(self) -> bool {
        self != Error::NotFound
    }

    /// Whether the same request may succeed when it is made again.
    pub fn is_retryable(&self) -> (retryable: bool)
        ensures
            retryable == self.spec_is_retryable(),
    {
        match self {
            Error::NotFound => false,
            Error::JudgeFailure => true,
            Error::StoreConflict => true,
        }
    }
}

/// The judge could not be run: it gave no verdict.
#[derive(Debug, PartialEq, Eq)]
pub struct JudgeFailure {
    pub message: String,
}

} // verus!
