//! Errors reported by the state store and the models built on it.
use vstd::prelude::*;

verus! {

/// An error from the state store.
#[derive(Debug, Clone)]
pub enum StorageError {
    /// The record `key` of kind `item` is not stored.
    NotFound { item: String, key: String },
    /// The store refused the operation, for instance an insert of a record
    /// that already exists.
    QueryError { reason: String },
}

impl StorageError {
    /// Whether this is the error for a missing record.
    pub fn is_not_found(&self) -> (r: bool)
        ensures
            r == (self is NotFound),
    {
        match self {
            StorageError::NotFound { .. } => true,
            _ => false,
        }
    }
}

/// A hash was built from a byte slice whose length is not 32.
#[derive(Debug, Clone, Copy, PartialEq, Eq, Structural)]
pub struct FixedHashSizeError;

} // verus!
