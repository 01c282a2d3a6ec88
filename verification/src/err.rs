//! The error taxonomy of the storage layer.

use vstd::prelude::*;

verus! {

/// How a repository operation can fail.
///
/// Every operation either succeeds or reports exactly one of these kinds;
/// none of them is fatal to the caller.
#[derive(Clone, Copy, Debug, PartialEq, Eq, Structural)]
pub enum RepoError {
    /// The addressed row does not exist (update, delete, relationship removal).
    NotFound,
    /// A primary or natural key, or a `(project, number)` milestone pair,
    /// already exists.
    Conflict,
    /// A referenced row (for example a manager's email) does not exist,
    /// or the row is still referenced and may not be deleted.
    InvalidReference,
    /// A caller-supplied identifier is not in canonical form.
    InvalidIdentifier,
    /// An engine-level failure not otherwise classified.
    StorageFailure,
}

impl RepoError {
    /// A short stable description, for surfaces that show errors verbatim.
    pub fn message(&self) -> (r: &'static str)
        ensures
            r@ == match *self {
                RepoError::NotFound => "not found"@,
                RepoError::Conflict => "already exists"@,
                RepoError::InvalidReference => "invalid reference"@,
                RepoError::InvalidIdentifier => "invalid identifier"@,
                RepoError::StorageFailure => "storage failure"@,
            },
    {
        match *self {
            RepoError::NotFound => "not found",
            RepoError::Conflict => "already exists",
            RepoError::InvalidReference => "invalid reference",
            RepoError::InvalidIdentifier => "invalid identifier",
            RepoError::StorageFailure => "storage failure",
        }
    }
}

} // verus!
