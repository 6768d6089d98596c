//! The error taxonomy shared by every layer.

use vstd::prelude::*;

verus! {

/// Why an operation did not produce a value.
#[derive(Debug, PartialEq, Eq)]
pub enum StorageError {
    /// The request was malformed and never reached a worker.
    Validation,
    /// An insert collided with an existing unique key.
    Conflict,
    /// A single-row lookup matched nothing.
    NotFound,
    /// The connection or the driver failed; the payload is its message.
    Backend(String),
    /// No worker is left to take the operation.
    PoolExhausted,
}

impl Clone for StorageError {
    fn clone(&self) -> (copy: Self)
        ensures
            copy == *self,
    {
        match self {
            StorageError::Validation => StorageError::Validation,
            StorageError::Conflict => StorageError::Conflict,
            StorageError::NotFound => StorageError::NotFound,
            StorageError::Backend(message) => StorageError::Backend(message.clone()),
            StorageError::PoolExhausted => StorageError::PoolExhausted,
        }
    }
}

} // verus!
