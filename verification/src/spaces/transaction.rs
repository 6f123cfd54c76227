//! How the work in a transaction of the store ends.
use vstd::prelude::*;

use crate::error::AppError;

verus! {

/// How a transaction ends.
pub enum TransactionEnd<T> {
    /// What was done in it is kept.
    Commit(T),
    /// Nothing of it is kept.
    Rollback(AppError),
}

/// How a transaction ends in which work came to an outcome: a failure, wherever
/// in the work it came, keeps nothing.
pub open spec fn ended<T>(outcome: Result<T, AppError>) -> TransactionEnd<T> {
    match outcome {
        Ok(value) => TransactionEnd::Commit(value),
        Err(error) => TransactionEnd::Rollback(error),
    }
}

/// Decides how a transaction ends.
pub fn end_transaction<T>(outcome: Result<T, AppError>) -> (end: TransactionEnd<T>)
    ensures
        end == ended(outcome),
{
    match outcome {
        Ok(value) => TransactionEnd::Commit(value),
        Err(error) => TransactionEnd::Rollback(error),
    }
}

/// What is stored after a transaction, given what was stored before it and what
/// was stored inside it at its end.
pub open spec fn kept<S, T>(before: S, inside: S, end: TransactionEnd<T>) -> S {
    match end {
        TransactionEnd::Commit(_) => inside,
        TransactionEnd::Rollback(_) => before,
    }
}

/// Work that fails leaves everything as it was, and work that succeeds leaves what
/// it did.
pub proof fn law_all_or_nothing<S, T>(before: S, inside: S, outcome: Result<T, AppError>)
    ensures
        outcome is Err ==> kept(before, inside, ended(outcome)) == before,
        outcome is Ok ==> kept(before, inside, ended(outcome)) == inside,
{
}

} // verus!
