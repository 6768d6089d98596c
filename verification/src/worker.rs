//! What a worker decides once its connection has answered: what to reply,
//! and whether it can go on.
//!
//! A worker owns one connection for its whole life and runs one operation at
//! a time. It does not reconnect. When the connection is lost the operation
//! at hand fails with `Backend`, and the worker stops.

use vstd::prelude::*;
use crate::error::StorageError;
use crate::operation::TypedValue;

verus! {

/// How a statement failed on the connection.
#[derive(Debug, PartialEq, Eq)]
pub enum Failure {
    /// A single-row query matched no row.
    NoRow,
    /// An insert broke a unique constraint.
    UniqueViolation,
    /// The statement failed for another reason; the connection still works.
    Rejected(String),
    /// The connection is gone.
    ConnectionLost(String),
}

/// What a worker does after an operation.
#[derive(Debug, PartialEq, Eq)]
pub struct Step {
    /// What the caller of the operation is told.
    pub reply: Result<TypedValue, StorageError>,
    /// Whether the worker takes another operation.
    pub keep_running: bool,
}

/// The error that a failure is reported as.
pub open spec fn error_of(failure: Failure) -> StorageError {
    match failure {
        Failure::NoRow => StorageError::NotFound,
        Failure::UniqueViolation => StorageError::Conflict,
        Failure::Rejected(message) => StorageError::Backend(message),
        Failure::ConnectionLost(message) => StorageError::Backend(message),
    }
}

/// Whether a worker stops after this outcome.
pub open spec fn is_fatal(outcome: Result<TypedValue, Failure>) -> bool {
    outcome matches Err(Failure::ConnectionLost(_))
}

/// The error that a failure is reported as.
pub fn classify(failure: Failure) -> (error: StorageError)
    ensures
        error == error_of(failure),
{
    match failure {
        Failure::NoRow => StorageError::NotFound,
        Failure::UniqueViolation => StorageError::Conflict,
        Failure::Rejected(message) => StorageError::Backend(message),
        Failure::ConnectionLost(message) => StorageError::Backend(message),
    }
}

/// Decides what follows an operation: the value or the error goes to the
/// caller unchanged in kind, and only the loss of the connection stops the
/// worker.
pub fn settle(outcome: Result<TypedValue, Failure>) -> (step: Step)
    ensures
        step.keep_running == !is_fatal(outcome),
        outcome is Ok ==> step.reply == Ok::<TypedValue, StorageError>(outcome->Ok_0),
        outcome is Err ==> step.reply == Err::<TypedValue, StorageError>(
            error_of(outcome->Err_0),
        ),
{
    match outcome {
        Ok(value) => Step { reply: Ok(value), keep_running: true },
        Err(Failure::ConnectionLost(message)) => Step {
            reply: Err(StorageError::Backend(message)),
            keep_running: false,
        },
        Err(failure) => Step { reply: Err(classify(failure)), keep_running: true },
    }
}

/// What an operation is failed with when its worker stopped before reaching it.
pub fn orphaned() -> (error: StorageError)
    ensures
        error matches StorageError::Backend(message) && message@
            == "the worker stopped before it reached this operation"@,
{
    StorageError::Backend("the worker stopped before it reached this operation".to_owned())
}

/// Number of `true` entries.
pub open spec fn successes(outcomes: Seq<bool>) -> nat
    decreases outcomes.len(),
{
    if outcomes.len() == 0 {
        0
    } else if outcomes.last() {
        successes(outcomes.drop_last()) + 1
    } else {
        successes(outcomes.drop_last())
    }
}

/// Counts never exceed the number of attempts, reach it only where every
/// attempt succeeded, and fall short of it as soon as one failed.
pub proof fn lemma_successes_bound(outcomes: Seq<bool>)
    ensures
        successes(outcomes) <= outcomes.len(),
        successes(outcomes) == outcomes.len() <==> forall|i: int|
            0 <= i < outcomes.len() ==> outcomes[i],
    decreases outcomes.len(),
{
    if outcomes.len() > 0 {
        let earlier = outcomes.drop_last();
        lemma_successes_bound(earlier);
        if successes(outcomes) == outcomes.len() {
            assert forall|i: int| 0 <= i < outcomes.len() implies outcomes[i] by {
                if i < earlier.len() {
                    assert(earlier[i] == outcomes[i]);
                }
            }
        }
        if forall|i: int| 0 <= i < outcomes.len() ==> outcomes[i] {
            assert(outcomes.last());
            assert forall|i: int| 0 <= i < earlier.len() implies earlier[i] by {
                assert(earlier[i] == outcomes[i]);
            }
        }
    }
}

/// The count that a batch reports: an attempt that failed is left out of it
/// and does not end the batch, so every later success still counts.
pub fn count_stored(outcomes: &Vec<bool>) -> (stored: usize)
    ensures
        stored == successes(outcomes@),
        stored <= outcomes@.len(),
        stored < outcomes@.len() <==> exists|i: int| 0 <= i < outcomes@.len() && !outcomes@[i],
{
    let mut stored: usize = 0;
    let mut i: usize = 0;
    while i < outcomes.len()
        invariant
            i <= outcomes.len(),
            stored == successes(outcomes@.take(i as int)),
            stored <= i,
        decreases outcomes.len() - i,
    {
        assert(outcomes@.take(i + 1).drop_last() =~= outcomes@.take(i as int));
        if outcomes[i] {
            stored += 1;
        }
        i += 1;
    }
    proof {
        assert(outcomes@.take(i as int) =~= outcomes@);
        lemma_successes_bound(outcomes@);
    }
    stored
}

/// The row limit of a fetch from the queue of links. A negative limit is
/// refused.
pub fn fetch_limit(limit: i32) -> (result: Result<i64, StorageError>)
    ensures
        limit >= 0 ==> result == Ok::<i64, StorageError>(limit as i64),
        limit < 0 ==> result == Err::<i64, StorageError>(StorageError::Validation),
{
    if limit < 0 {
        Err(StorageError::Validation)
    } else {
        Ok(limit as i64)
    }
}

} // verus!
