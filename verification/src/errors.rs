//! The error taxonomy of handle resolution.
//!
//! Every error is returned synchronously from the resolver (or from the
//! handle table); none is retried internally.

use vstd::prelude::*;

verus! {

/// What can go wrong while resolving a name to a database handle.
#[derive(Clone, Copy, PartialEq, Eq, Structural, Debug)]
pub enum DbError {
    /// The name is absent and `create` was not requested.  Recoverable: the
    /// caller may retry with `create` inside a write transaction.
    DatabaseNotFound,
    /// The database exists but its persisted flags differ from the persisted
    /// part of the requested ones.
    IncompatibleFlags,
    /// `create` was requested through a read-only transaction.
    ReadOnlyTransaction,
    /// The environment's configured maximum number of named databases is
    /// exhausted.
    TooManyDatabases,
    /// The handle table and the catalog disagree: external corruption or a
    /// broken serialization discipline.  Fatal; never retried.
    CorruptCatalog,
}

} // verus!
