//! The handle table: the environment-wide, in-memory cache of resolved
//! name-to-slot mappings.
//!
//! The table is the single source of truth for which names have been
//! resolved in this process.  It holds its entries in the same record layout
//! the catalog persists, so a cached entry is literally a copy of a catalog
//! record.  Its capacity is the environment's configured maximum number of
//! named databases, fixed when the environment is opened.

use vstd::prelude::*;

use crate::codec::parse_entry;
use crate::errors::DbError;
use crate::flags::DbFlags;
use crate::store::{
    cat_rec, copy_bytes, entry_of, lemma_stored_none_inv, recs, store_find, store_put, stored,
    unique_keys, Record, RecImage,
};

verus! {

/// The in-memory cache of resolved handles.
pub struct HandleTable {
    entries: Vec<Record>,
    capacity: u64,
}

impl View for HandleTable {
    type V = Seq<RecImage>;

    closed spec fn view(&self) -> Seq<RecImage> {
        recs(self.entries@)
    }
}

impl HandleTable {
    /// The configured maximum number of named databases.
    pub closed spec fn capacity_spec(self) -> u64 {
        self.capacity
    }

    /// Well-formedness: unique names, every entry a parsable catalog record
    /// for a positive slot, and no more entries than the capacity allows.
    pub open spec fn wf(self) -> bool {
        &&& unique_keys(self@)
        &&& forall|i: int|
            0 <= i < self@.len() ==> {
                &&& (#[trigger] self@[i]).slot == 0
                &&& parse_entry(self@[i].value) is Some
                &&& 1 <= parse_entry(self@[i].value).unwrap().0
            }
        &&& self@.len() <= self.capacity_spec()
    }

    /// An empty table with the given capacity.
    pub fn new(capacity: u64) -> (r: HandleTable)
        ensures
            r.wf(),
            r@.len() == 0,
            r.capacity_spec() == capacity,
    {
        let r = HandleTable { entries: Vec::new(), capacity };
        proof {
            assert(r@ =~= Seq::<RecImage>::empty());
        }
        r
    }

    /// How many names are cached.
    pub fn len(&self) -> (r: usize)
        ensures
            r == self@.len(),
    {
        self.entries.len()
    }

    /// The cached slot and flags of a name, if the name has been resolved.
    /// Pure: no engine access, no transaction needed.
    pub fn lookup(&self, name: &Vec<u8>) -> (r: Option<(u64, DbFlags)>)
        ensures
            r == entry_of(self@, name@),
    {
        match store_find(&self.entries, 0, name) {
            Some(i) => decode_found(&self.entries, i, name),
            None => None,
        }
    }

    /// Records a newly resolved mapping.  Idempotent: inserting an
    /// already-present name with the same slot and flags is a no-op.
    /// Inserting a different slot or flag set for a present name signals
    /// `CorruptCatalog`; a new name beyond the capacity signals
    /// `TooManyDatabases`.  Either error leaves the table unchanged.
    pub fn insert(&mut self, name: &Vec<u8>, slot: u64, flags: DbFlags) -> (r: Result<
        (),
        DbError,
    >)
        requires
            old(self).wf(),
            1 <= slot,
            !flags.create,
        ensures
            final(self).wf(),
            final(self).capacity_spec() == old(self).capacity_spec(),
            (match entry_of(old(self)@, name@) {
                Some(e) => {
                    if e == (slot, flags) {
                        r == Ok::<(), DbError>(()) && final(self)@ == old(self)@
                    } else {
                        r == Err::<(), DbError>(DbError::CorruptCatalog) && final(self)@ == old(
                            self,
                        )@
                    }
                },
                None => {
                    if old(self)@.len() >= old(self).capacity_spec() {
                        r == Err::<(), DbError>(DbError::TooManyDatabases) && final(self)@ == old(
                            self,
                        )@
                    } else {
                        r == Ok::<(), DbError>(()) && final(self)@ == old(self)@.push(
                            cat_rec(name@, slot, flags),
                        )
                    }
                },
            }),
            r is Ok ==> entry_of(final(self)@, name@) == Some((slot, flags)),
            forall|n2: Seq<u8>| n2 != name@ ==> entry_of(final(self)@, n2) == entry_of(
                old(self)@,
                n2,
            ),
    {
        match store_find(&self.entries, 0, name) {
            Some(i) => {
                match decode_found(&self.entries, i, name) {
                    Some((s0, f0)) => {
                        if s0 == slot && f0 == flags {
                            Ok(())
                        } else {
                            Err(DbError::CorruptCatalog)
                        }
                    },
                    None => {
                        // A cached entry always parses in a well-formed
                        // table; this arm is unreachable.
                        proof {
                            assert(false);
                        }
                        Err(DbError::CorruptCatalog)
                    },
                }
            },
            None => {
                if self.entries.len() as u64 >= self.capacity {
                    Err(DbError::TooManyDatabases)
                } else {
                    let value = crate::codec::encode_entry(slot, &flags);
                    let ghost o = self@;
                    let ghost r_img = cat_rec(name@, slot, flags);
                    store_put(&mut self.entries, 0, copy_bytes(name), value);
                    proof {
                        crate::codec::lemma_entry_round_trip(slot, flags);
                        assert(flags.persisted_spec() == flags);
                        lemma_stored_none_inv(o, 0, name@);
                        assert(self@ == o.push(r_img));
                        assert(entry_of(self@, name@) == Some((slot, flags)));
                        assert forall|i: int| 0 <= i < self@.len() implies {
                            &&& (#[trigger] self@[i]).slot == 0
                            &&& parse_entry(self@[i].value) is Some
                            &&& 1 <= parse_entry(self@[i].value).unwrap().0
                        } by {
                            if i < o.len() {
                                assert(self@[i] == o[i]);
                            } else {
                                assert(self@[i] == r_img);
                            }
                        }
                    }
                    Ok(())
                }
            },
        }
    }
}

/// Decodes the entry at a found index, tying the result to `entry_of`.
fn decode_found(entries: &Vec<Record>, i: usize, name: &Vec<u8>) -> (r: Option<(u64, DbFlags)>)
    requires
        i < entries@.len(),
        crate::store::rec_matches(recs(entries@)[i as int], 0, name@),
        stored(recs(entries@), 0, name@) == Some(recs(entries@)[i as int].value),
    ensures
        r == entry_of(recs(entries@), name@),
{
    crate::codec::decode_entry(&entries[i].value)
}

} // verus!
