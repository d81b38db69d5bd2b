//! What the repositories share: the error type and the classification of
//! failures that a storage backend reports.

use vstd::prelude::*;

pub mod label;
pub mod todo;
pub mod validation;

verus! {

/// Why a repository operation did not go through.
#[derive(Debug, PartialEq, Eq)]
pub enum RepositoryError {
    /// The backend failed in a way that is none of the other kinds.
    Unexpected(String),
    /// No entity has the requested id.
    NotFound(i32),
    /// Creating the entity would repeat the entity with this id.
    Duplicate(i32),
}

/// What a storage backend says when a statement fails, reduced to what the
/// repositories tell apart.
#[derive(Debug, PartialEq, Eq)]
pub enum BackendFailure {
    /// The statement was expected to yield a row and yielded none.
    RowNotFound,
    /// Any other failure, with the backend's description of it.
    Other(String),
}

impl Clone for RepositoryError {
    fn clone(&self) -> (copy: Self)
        ensures
            copy == *self,
    {
        match self {
            RepositoryError::Unexpected(message) => RepositoryError::Unexpected(message.clone()),
            RepositoryError::NotFound(id) => RepositoryError::NotFound(*id),
            RepositoryError::Duplicate(id) => RepositoryError::Duplicate(*id),
        }
    }
}

impl Clone for BackendFailure {
    fn clone(&self) -> (copy: Self)
        ensures
            copy == *self,
    {
        match self {
            BackendFailure::RowNotFound => BackendFailure::RowNotFound,
            BackendFailure::Other(message) => BackendFailure::Other(message.clone()),
        }
    }
}

impl RepositoryError {
    /// The error that stands for `failure`, met while working on entity `id`.
    pub open spec fn classify(id: i32, failure: BackendFailure) -> RepositoryError {
        match failure {
            BackendFailure::RowNotFound => RepositoryError::NotFound(id),
            BackendFailure::Other(message) => RepositoryError::Unexpected(message),
        }
    }

    /// The HTTP status that tells a client of the error.
    pub open spec fn status(self) -> u16 {
        match self {
            RepositoryError::NotFound(_) => 404,
            RepositoryError::Duplicate(_) => 409,
            RepositoryError::Unexpected(_) => 500,
        }
    }

    /// The HTTP status that tells a client of the error: 404 where the
    /// entity was not found, 409 where it would be a duplicate, 500 for
    /// anything unexpected.
    pub fn status_code(&self) -> (code: u16)
        ensures
            code == self.status(),
    {
        match self {
            RepositoryError::NotFound(_) => 404,
            RepositoryError::Duplicate(_) => 409,
            RepositoryError::Unexpected(_) => 500,
        }
    }

    /// Turns a backend failure into a repository error: a missing row means
    /// that entity `id` does not exist, everything else is unexpected and
    /// keeps the backend's message.
    pub fn from_failure(id: i32, failure: BackendFailure) -> (error: RepositoryError)
        ensures
            error == Self::classify(id, failure),
    {
        match failure {
            BackendFailure::RowNotFound => RepositoryError::NotFound(id),
            BackendFailure::Other(message) => RepositoryError::Unexpected(message),
        }
    }
}

/// What a statement that removes entity `id` comes to, given the number of
/// rows that it removed: where it removed none, there was no such entity.
pub fn removal_outcome(id: i32, rows_removed: u64) -> (result: Result<(), RepositoryError>)
    ensures
        result == if rows_removed == 0 {
            Err::<(), RepositoryError>(RepositoryError::NotFound(id))
        } else {
            Ok::<(), RepositoryError>(())
        },
{
    if rows_removed == 0 {
        Err(RepositoryError::NotFound(id))
    } else {
        Ok(())
    }
}

} // verus!
