//! Errors reported by the storage layer.

use vstd::prelude::*;

verus! {

/// An error of the storage layer, with a human-readable description.
#[derive(Debug)]
pub enum StorageError {
    /// The requested object does not exist.
    NotFound { description: String },
    /// The service could not complete the request (a failed read or write,
    /// for instance).
    ServiceError { description: String },
}

impl StorageError {
    /// A `NotFound` error with the given description.
    pub fn not_found(description: String) -> (err: StorageError)
        ensures
            err == (StorageError::NotFound { description }),
    {
        StorageError::NotFound { description }
    }

    /// A `ServiceError` with the given description.
    pub fn service_error(description: String) -> (err: StorageError)
        ensures
            err == (StorageError::ServiceError { description }),
    {
        StorageError::ServiceError { description }
    }

    /// The description carried by the error.
    pub fn description(&self) -> (text: &String)
        ensures
            text == (match self {
                StorageError::NotFound { description } => description,
                StorageError::ServiceError { description } => description,
            }),
    {
        match self {
            StorageError::NotFound { description } => description,
            StorageError::ServiceError { description } => description,
        }
    }
}

} // verus!
