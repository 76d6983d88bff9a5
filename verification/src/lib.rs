//! An embedded vector-record store: it persists numeric feature vectors
//! together with key/value metadata, and answers lookups by record
//! identifier or by exact metadata match.

use vstd::prelude::*;

pub mod codec;
pub mod db;
pub mod index;
pub mod log;
pub mod metadata;
pub mod record;
pub mod store;

verus! {

/// The error taxonomy of the store.  Every fallible operation returns one of
/// these as a typed result; absent records and empty query results are normal
/// `None`/empty returns, never errors.
#[derive(Debug, Clone, Copy, PartialEq, Eq, Structural)]
pub enum AlloyError {
    /// Device or filesystem failure, propagated from the persistent substrate.
    IoError,
    /// A header or payload that does not decode as this format.
    CorruptFormat,
    /// A header whose version field exceeds what this implementation understands.
    UnsupportedVersion,
    /// The exclusive writer lock was unavailable.
    LockContention,
    /// `create_index` was given a name that is already registered.
    DuplicateIndex,
    /// `upsert` or `query` named an index that is not registered.
    IndexNotFound,
    /// `query` was given neither an id nor a metadata filter.
    InvalidQuery,
    /// A record's paired entry is missing from the other namespace.
    ConsistencyError,
}



} // verus!
