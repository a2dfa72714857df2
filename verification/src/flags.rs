//! Per-database option flags.
//!
//! A flag set accompanies every resolution request.  `create` asks the
//! resolver to create the database when the name is absent; the six other
//! flags select key and duplicate ordering options.  The ordering options are
//! fixed at creation time and persisted in the catalog; `create` itself is
//! never persisted.  Reopening a database with a flag set whose persisted
//! part differs from the stored one is an error (the exact-match policy: it
//! is the safer of the two policies the design leaves open, and it is the
//! one this library commits to).

use vstd::prelude::*;

verus! {

/// The option flags of a named database.
#[derive(Clone, Copy, PartialEq, Eq, Structural, Debug)]
pub struct DbFlags {
    /// Create the database if it is absent; otherwise resolution fails.
    pub create: bool,
    /// Compare keys byte-reversed.
    pub reverse_key: bool,
    /// Allow duplicate keys, kept sorted as a set.
    pub dup_sort: bool,
    /// Interpret keys as native integers for ordering.
    pub integer_key: bool,
    /// Duplicates are fixed-size, enabling compact storage.
    pub dup_fixed: bool,
    /// Interpret duplicate values as native integers for ordering.
    pub integer_dup: bool,
    /// Compare duplicate values byte-reversed.
    pub reverse_dup: bool,
}

impl DbFlags {
    /// The flag set with nothing requested.
    pub open spec fn none_spec() -> DbFlags {
        DbFlags {
            create: false,
            reverse_key: false,
            dup_sort: false,
            integer_key: false,
            dup_fixed: false,
            integer_dup: false,
            reverse_dup: false,
        }
    }

    /// The flag set with nothing requested.
    pub fn none() -> (r: DbFlags)
        ensures
            r == DbFlags::none_spec(),
    {
        DbFlags {
            create: false,
            reverse_key: false,
            dup_sort: false,
            integer_key: false,
            dup_fixed: false,
            integer_dup: false,
            reverse_dup: false,
        }
    }

    /// The persisted part of a flag set: every option except the `create`
    /// request, which only steers resolution and is never stored.
    pub open spec fn persisted_spec(self) -> DbFlags {
        DbFlags { create: false, ..self }
    }

    /// The persisted part of a flag set.
    pub fn persisted(self) -> (r: DbFlags)
        ensures
            r == self.persisted_spec(),
    {
        DbFlags { create: false, ..self }
    }

    /// The same flag set with the `create` request added.
    pub fn with_create(self) -> (r: DbFlags)
        ensures
            r == (DbFlags { create: true, ..self }),
    {
        DbFlags { create: true, ..self }
    }
}

} // verus!
