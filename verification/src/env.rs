//! The environment, its transactions, and the handle resolver.
//!
//! An `Environment` is one open instance of the store.  It owns the
//! committed record store, the environment-wide [`HandleTable`], and the
//! configured maximum number of named databases.  A `Transaction` is a
//! snapshot of the committed records, mutable when opened read-write, plus
//! the catalog entries staged by creations inside it.
//!
//! The resolver ([`Database::new`], also reachable as [`resolve`]) is the
//! single authorized path to a [`Database`] handle.  Handle-table caching of
//! a creation is deferred until the owning transaction commits, so an
//! aborted creation can never leak a phantom handle into the shared cache.
//! The serialization the design demands around every cache mutation is
//! supplied statically: mutating resolutions borrow the `Environment`
//! exclusively, which is this library's mutex.

use vstd::prelude::*;

use crate::codec::parse_entry;
use crate::errors::DbError;
use crate::flags::DbFlags;
use crate::store::{
    cat_rec, catalog_count, catalog_wf, copy_bytes, copy_records, count_catalog, entry_of,
    lemma_stored_none_inv, lemma_stored_push, lemma_stored_some_index, recs, store_find,
    store_put, stored, unique_keys, RecImage, Record,
};
use crate::table::HandleTable;

verus! {

/// A handle to an individual database in an environment.
///
/// A handle wraps the database's slot: the integer identifier under which
/// the engine files the database's records.  Handles are copyable, compared
/// by slot, and constructible only through the resolver; a handle is valid
/// only against the environment that minted it and only while that
/// environment is open.
#[derive(Clone, Copy, PartialEq, Eq, Structural, Debug)]
pub struct Database {
    slot: u64,
}

impl View for Database {
    type V = u64;

    closed spec fn view(&self) -> u64 {
        self.slot
    }
}

/// The reserved slot of the default (unnamed) database, which also files
/// the catalog records.
pub open spec fn root_slot() -> u64 {
    0
}

/// One open instance of the store.
pub struct Environment {
    committed: Vec<Record>,
    table: HandleTable,
    max_databases: u64,
}

/// A transaction: a snapshot of the committed records, with the catalog
/// entries staged by creations inside it, and (in ghost form) the committed
/// state it was begun from.
pub struct Transaction {
    read_write: bool,
    records: Vec<Record>,
    pending: Vec<Record>,
    base: Ghost<Seq<RecImage>>,
}

impl Environment {
    /// The committed record store.
    pub closed spec fn committed_view(self) -> Seq<RecImage> {
        recs(self.committed@)
    }

    /// The handle table's entries.
    pub closed spec fn table_view(self) -> Seq<RecImage> {
        self.table@
    }

    /// The configured maximum number of named databases.
    pub closed spec fn max_spec(self) -> u64 {
        self.max_databases
    }

    /// Well-formedness of the handle table itself.
    pub closed spec fn table_wf(self) -> bool {
        self.table.wf()
    }

    /// The handle table's capacity.
    pub closed spec fn table_capacity(self) -> u64 {
        self.table.capacity_spec()
    }

    /// Well-formedness: the committed catalog is well formed, the handle
    /// table is well formed with the environment's capacity, and every
    /// cached entry agrees with the committed catalog — the invariant that
    /// rules out phantom handles.
    pub open spec fn wf(self) -> bool {
        &&& catalog_wf(self.committed_view())
        &&& self.table_wf()
        &&& self.table_capacity() == self.max_spec()
        &&& forall|name: Seq<u8>|
            #[trigger] entry_of(self.table_view(), name) is Some ==> entry_of(
                self.committed_view(),
                name,
            ) == entry_of(self.table_view(), name)
    }

    /// Opens a fresh, empty environment that will admit at most
    /// `max_databases` named databases.
    pub fn new(max_databases: u64) -> (r: Environment)
        ensures
            r.wf(),
            r.committed_view().len() == 0,
            r.table_view().len() == 0,
            r.max_spec() == max_databases,
    {
        let r = Environment {
            committed: Vec::new(),
            table: HandleTable::new(max_databases),
            max_databases,
        };
        proof {
            assert(r.committed_view() =~= Seq::<RecImage>::empty());
        }
        r
    }

    /// The configured maximum number of named databases.
    pub fn max_databases(&self) -> (r: u64)
        ensures
            r == self.max_spec(),
    {
        self.max_databases
    }

    /// Begins a transaction: a snapshot of the committed records, read-write
    /// when asked.  The single-writer discipline (at most one read-write
    /// transaction at a time) is the storage engine's and is assumed, not
    /// enforced here.
    pub fn begin(&self, read_write: bool) -> (t: Transaction)
        requires
            self.wf(),
        ensures
            t.wf(),
            t.is_rw() == read_write,
            t.records_view() == self.committed_view(),
            t.base_view() == self.committed_view(),
            t.pending_view().len() == 0,
    {
        let t = Transaction {
            read_write,
            records: copy_records(&self.committed),
            pending: Vec::new(),
            base: Ghost(self.committed_view()),
        };
        proof {
            assert(t.pending_view() =~= Seq::<RecImage>::empty());
        }
        t
    }

    /// Commits a transaction.  A read-write transaction's records become the
    /// committed store, and the catalog entries it created are merged into
    /// the handle table (an entry beyond a full table is merely left
    /// uncached).  A read-only transaction commits to nothing.  Committing a
    /// transaction that was begun from this environment's current committed
    /// state never fails.
    pub fn commit(&mut self, txn: Transaction) -> (r: Result<(), DbError>)
        requires
            old(self).wf(),
            txn.wf(),
            txn.base_view() == old(self).committed_view(),
        ensures
            final(self).wf(),
            final(self).max_spec() == old(self).max_spec(),
            r == Ok::<(), DbError>(()),
            final(self).committed_view() == if txn.is_rw() {
                txn.records_view()
            } else {
                old(self).committed_view()
            },
    {
        if !txn.read_write {
            return Ok(());
        }
        let ghost rv = txn.records_view();
        let ghost pv = txn.pending_view();
        let Transaction { read_write: _, records, pending, base: _ } = txn;
        self.committed = records;
        let mut i: usize = 0;
        while i < pending.len()
            invariant
                i <= pending@.len(),
                pv == recs(pending@),
                pv.len() == pending@.len(),
                recs(self.committed@) == rv,
                self.max_databases == old(self).max_spec(),
                self.table.wf(),
                self.table.capacity_spec() == self.max_databases,
                catalog_wf(rv),
                forall|i2: int|
                    0 <= i2 < pv.len() ==> {
                        &&& (#[trigger] pv[i2]).slot == 0
                        &&& parse_entry(pv[i2].value) is Some
                        &&& 1 <= parse_entry(pv[i2].value).unwrap().0
                    },
                unique_keys(pv),
                forall|name: Seq<u8>|
                    #[trigger] entry_of(pv, name) is Some ==> entry_of(rv, name) == entry_of(
                        pv,
                        name,
                    ),
                forall|name: Seq<u8>|
                    #[trigger] entry_of(self.table@, name) is Some ==> entry_of(rv, name)
                        == entry_of(self.table@, name),
            decreases pending.len() - i,
        {
            let ghost key_i = pv[i as int].key;
            match crate::codec::decode_entry(&pending[i].value) {
                Some((slot, f)) => {
                    proof {
                        assert(pv[i as int] == pending@[i as int]@);
                        assert(!f.create);
                        assert forall|j: int| 0 <= j < i implies !crate::store::rec_matches(
                            pv[j],
                            0,
                            key_i,
                        ) by {
                            assert(!(pv[j].slot == pv[i as int].slot && pv[j].key == pv[
                                i as int
                            ].key));
                        }
                        crate::store::lemma_stored_first(pv, i as int, 0, key_i);
                        assert(entry_of(pv, key_i) == Some((slot, f)));
                        assert(entry_of(rv, key_i) == Some((slot, f)));
                    }
                    let ghost tb = self.table@;
                    let res = self.table.insert(&pending[i].key, slot, f);
                    proof {
                        assert forall|name: Seq<u8>|
                            #[trigger] entry_of(self.table@, name) is Some implies entry_of(
                            rv,
                            name,
                        ) == entry_of(self.table@, name) by {
                            if name == key_i {
                                match entry_of(tb, key_i) {
                                    Some(_) => {},
                                    None => {},
                                }
                            } else {
                                assert(entry_of(self.table@, name) == entry_of(tb, name));
                            }
                        }
                    }
                    // A full table merely leaves this entry uncached; a
                    // later resolution will read it from the catalog.
                    match res {
                        Ok(_) => (),
                        Err(_) => (),
                    }
                },
                None => {
                    // A staged entry always parses: the creation path wrote it.
                    proof {
                        assert(pv[i as int] == pending@[i as int]@);
                        assert(false);
                    }
                },
            }
            i += 1;
        }
        Ok(())
    }

    /// Aborts a transaction, discarding its snapshot and everything it
    /// staged.  Abort touches neither the committed store nor the handle
    /// table — it does not even take the environment — so an aborted
    /// creation cannot leak into the shared cache.
    pub fn abort(&self, txn: Transaction) {
        let _ = txn;
    }
}

impl Transaction {
    /// The transaction's view of the record store.
    pub closed spec fn records_view(self) -> Seq<RecImage> {
        recs(self.records@)
    }

    /// The catalog entries created inside this transaction and not yet
    /// committed.
    pub closed spec fn pending_view(self) -> Seq<RecImage> {
        recs(self.pending@)
    }

    /// The committed store this transaction was begun from.
    pub closed spec fn base_view(self) -> Seq<RecImage> {
        self.base@
    }

    /// Whether the transaction may write.
    pub closed spec fn is_rw(self) -> bool {
        self.read_write
    }

    /// Whether the transaction may write.
    pub fn is_read_write(&self) -> (r: bool)
        ensures
            r == self.is_rw(),
    {
        self.read_write
    }

    /// Reads the value stored under a key of a database, through this
    /// transaction's snapshot.  Reading is allowed against any handle, the
    /// default database included.
    pub fn get(&self, db: Database, key: &Vec<u8>) -> (r: Option<Vec<u8>>)
        ensures
            match r {
                Some(v) => stored(self.records_view(), db@, key@) == Some(v@),
                None => stored(self.records_view(), db@, key@) is None,
            },
    {
        match store_find(&self.records, db.slot, key) {
            Some(i) => {
                proof {
                    assert(recs(self.records@)[i as int].value == self.records@[i as int]@.value);
                }
                Some(copy_bytes(&self.records[i].value))
            },
            None => None,
        }
    }

    /// Writes a value under a key of a named database.  The root slot is
    /// reserved: it files the catalog, which only the resolver may write, so
    /// data lives in databases the resolver created.  Writing through a
    /// read-only transaction fails with `ReadOnlyTransaction` and changes
    /// nothing.
    pub fn put(&mut self, db: Database, key: Vec<u8>, value: Vec<u8>) -> (r: Result<
        (),
        DbError,
    >)
        requires
            old(self).wf(),
            db@ >= 1,
        ensures
            final(self).wf(),
            final(self).base_view() == old(self).base_view(),
            final(self).pending_view() == old(self).pending_view(),
            final(self).is_rw() == old(self).is_rw(),
            (match r {
                Ok(_) => {
                    &&& old(self).is_rw()
                    &&& stored(final(self).records_view(), db@, key@) == Some(value@)
                    &&& forall|slot2: u64, key2: Seq<u8>|
                        !(slot2 == db@ && key2 == key@) ==> stored(
                            final(self).records_view(),
                            slot2,
                            key2,
                        ) == stored(old(self).records_view(), slot2, key2)
                },
                Err(e) => {
                    &&& e == DbError::ReadOnlyTransaction
                    &&& !old(self).is_rw()
                    &&& final(self).records_view() == old(self).records_view()
                },
            }),
    {
        if !self.read_write {
            return Err(DbError::ReadOnlyTransaction);
        }
        let ghost o = self.records_view();
        store_put(&mut self.records, db.slot, key, value);
        proof {
            let n = self.records_view();
            lemma_data_put_keeps_catalog(o, n, db@, key@, value@);
            assert forall|n2: Seq<u8>| #[trigger] entry_of(n, n2) == if entry_of(
                self.pending_view(),
                n2,
            ) is Some {
                entry_of(self.pending_view(), n2)
            } else {
                entry_of(self.base_view(), n2)
            } by {
                assert(stored(n, 0, n2) == stored(o, 0, n2));
                assert(entry_of(o, n2) == if entry_of(self.pending_view(), n2) is Some {
                    entry_of(self.pending_view(), n2)
                } else {
                    entry_of(self.base_view(), n2)
                });
            }
        }
        Ok(())
    }

    /// Removes the record under a key of a named database and says whether
    /// one was there.  As with [`Transaction::put`], the root slot is
    /// reserved for the catalog, and a read-only transaction cannot delete.
    pub fn delete(&mut self, db: Database, key: &Vec<u8>) -> (r: Result<bool, DbError>)
        requires
            old(self).wf(),
            db@ >= 1,
        ensures
            final(self).wf(),
            final(self).base_view() == old(self).base_view(),
            final(self).pending_view() == old(self).pending_view(),
            final(self).is_rw() == old(self).is_rw(),
            (match r {
                Ok(removed) => {
                    &&& old(self).is_rw()
                    &&& removed == (stored(old(self).records_view(), db@, key@) is Some)
                    &&& stored(final(self).records_view(), db@, key@) is None
                    &&& forall|slot2: u64, key2: Seq<u8>|
                        !(slot2 == db@ && key2 == key@) ==> stored(
                            final(self).records_view(),
                            slot2,
                            key2,
                        ) == stored(old(self).records_view(), slot2, key2)
                },
                Err(e) => {
                    &&& e == DbError::ReadOnlyTransaction
                    &&& !old(self).is_rw()
                    &&& final(self).records_view() == old(self).records_view()
                },
            }),
    {
        if !self.read_write {
            return Err(DbError::ReadOnlyTransaction);
        }
        let ghost o = self.records_view();
        let removed = crate::store::store_delete(&mut self.records, db.slot, key);
        proof {
            let n = self.records_view();
            lemma_data_delete_keeps_catalog(o, n, db@, key@);
            assert forall|n2: Seq<u8>| #[trigger] entry_of(n, n2) == if entry_of(
                self.pending_view(),
                n2,
            ) is Some {
                entry_of(self.pending_view(), n2)
            } else {
                entry_of(self.base_view(), n2)
            } by {
                assert(stored(n, 0, n2) == stored(o, 0, n2));
                assert(entry_of(o, n2) == if entry_of(self.pending_view(), n2) is Some {
                    entry_of(self.pending_view(), n2)
                } else {
                    entry_of(self.base_view(), n2)
                });
            }
        }
        Ok(removed)
    }

    /// Well-formedness: the snapshot's and the base's catalogs are well
    /// formed; the staged entries are parsable catalog records with unique
    /// names, absent from the base (they were created here), and present in
    /// the snapshot; a read-only transaction stages nothing; and the
    /// snapshot's catalog is exactly the base's overridden by the staged
    /// entries.
    pub open spec fn wf(self) -> bool {
        &&& catalog_wf(self.records_view())
        &&& catalog_wf(self.base_view())
        &&& forall|i: int|
            0 <= i < self.pending_view().len() ==> {
                &&& (#[trigger] self.pending_view()[i]).slot == 0
                &&& parse_entry(self.pending_view()[i].value) is Some
                &&& 1 <= parse_entry(self.pending_view()[i].value).unwrap().0
            }
        &&& unique_keys(self.pending_view())
        &&& (!self.is_rw() ==> self.pending_view().len() == 0)
        &&& forall|name: Seq<u8>|
            #[trigger] entry_of(self.pending_view(), name) is Some ==> entry_of(
                self.base_view(),
                name,
            ) is None
        &&& forall|name: Seq<u8>|
            #[trigger] entry_of(self.records_view(), name) == if entry_of(
                self.pending_view(),
                name,
            ) is Some {
                entry_of(self.pending_view(), name)
            } else {
                entry_of(self.base_view(), name)
            }
    }
}

/// The spec image of an optional name argument.
pub open spec fn name_image(name: Option<&Vec<u8>>) -> Option<Seq<u8>> {
    match name {
        Some(n) => Some(n@),
        None => None,
    }
}

/// The slot a creation in this transaction would allocate: one past the
/// number of existing catalog entries, so slots stay dense and are never
/// reused for a different name.
pub open spec fn next_slot(txn: Transaction) -> u64 {
    (catalog_count(txn.records_view()) + 1) as u64
}

/// What resolution decides, as a pure function of the environment's cache,
/// the transaction's catalog view, and the request.
pub open spec fn resolve_outcome(
    env: Environment,
    txn: Transaction,
    name: Option<Seq<u8>>,
    flags: DbFlags,
) -> Result<u64, DbError> {
    match name {
        None => Ok(root_slot()),
        Some(n) => match entry_of(env.table_view(), n) {
            Some(e) => if e.1 == flags.persisted_spec() {
                Ok(e.0)
            } else {
                Err(DbError::IncompatibleFlags)
            },
            None => match entry_of(txn.records_view(), n) {
                Some(e) => if e.1 == flags.persisted_spec() {
                    Ok(e.0)
                } else {
                    Err(DbError::IncompatibleFlags)
                },
                None => if !flags.create {
                    Err(DbError::DatabaseNotFound)
                } else if !txn.is_rw() {
                    Err(DbError::ReadOnlyTransaction)
                } else if catalog_count(txn.records_view()) >= env.max_spec() {
                    Err(DbError::TooManyDatabases)
                } else {
                    Ok(next_slot(txn))
                },
            },
        },
    }
}

/// Whether this resolution takes the creation path: cache miss, catalog
/// miss, `create` requested through a write transaction, capacity left.
pub open spec fn creates_entry(
    env: Environment,
    txn: Transaction,
    name: Seq<u8>,
    flags: DbFlags,
) -> bool {
    &&& entry_of(env.table_view(), name) is None
    &&& entry_of(txn.records_view(), name) is None
    &&& flags.create
    &&& txn.is_rw()
    &&& catalog_count(txn.records_view()) < env.max_spec()
}

/// Whether this resolution caches a committed catalog entry: cache miss,
/// compatible catalog hit not staged by this transaction, room in the table.
pub open spec fn caches_entry(
    env: Environment,
    txn: Transaction,
    name: Seq<u8>,
    flags: DbFlags,
) -> bool {
    &&& entry_of(env.table_view(), name) is None
    &&& entry_of(txn.records_view(), name) is Some
    &&& entry_of(txn.records_view(), name).unwrap().1 == flags.persisted_spec()
    &&& entry_of(txn.pending_view(), name) is None
    &&& env.table_view().len() < env.max_spec()
}

impl Database {
    /// Returns the underlying slot of the handle.
    pub fn dbi(&self) -> (r: u64)
        ensures
            r == self@,
    {
        self.slot
    }

    /// Opens a database handle in the given transaction: the resolver.
    ///
    /// `None` names the default database, whose fixed handle is returned
    /// unconditionally, flags ignored.  Otherwise the handle table is tried
    /// first (pure, no engine access); on a miss the catalog is consulted
    /// through the transaction, and with `create` requested an absent entry
    /// is created through a write transaction.  Reopening under flags whose
    /// persisted part differs from the stored one fails with
    /// `IncompatibleFlags` wherever the entry was found.  Creation defers
    /// its handle-table insertion to commit; resolution of an
    /// already-committed entry caches it at once.
    pub fn new(
        env: &mut Environment,
        txn: &mut Transaction,
        name: Option<&Vec<u8>>,
        flags: DbFlags,
    ) -> (r: Result<Database, DbError>)
        requires
            old(env).wf(),
            old(txn).wf(),
            old(txn).base_view() == old(env).committed_view(),
        ensures
            final(env).wf(),
            final(txn).wf(),
            final(txn).base_view() == old(txn).base_view(),
            final(txn).is_rw() == old(txn).is_rw(),
            final(env).committed_view() == old(env).committed_view(),
            final(env).max_spec() == old(env).max_spec(),
            (match r {
                Ok(db) => resolve_outcome(*old(env), *old(txn), name_image(name), flags)
                    == Ok::<u64, DbError>(db@),
                Err(e) => resolve_outcome(*old(env), *old(txn), name_image(name), flags)
                    == Err::<u64, DbError>(e),
            }),
            (match name {
                Some(n) => {
                    &&& final(txn).records_view() == if creates_entry(
                        *old(env),
                        *old(txn),
                        n@,
                        flags,
                    ) {
                        old(txn).records_view().push(
                            cat_rec(n@, next_slot(*old(txn)), flags.persisted_spec()),
                        )
                    } else {
                        old(txn).records_view()
                    }
                    &&& final(txn).pending_view() == if creates_entry(
                        *old(env),
                        *old(txn),
                        n@,
                        flags,
                    ) {
                        old(txn).pending_view().push(
                            cat_rec(n@, next_slot(*old(txn)), flags.persisted_spec()),
                        )
                    } else {
                        old(txn).pending_view()
                    }
                    &&& final(env).table_view() == if caches_entry(*old(env), *old(txn), n@, flags) {
                        old(env).table_view().push(
                            cat_rec(
                                n@,
                                entry_of(old(txn).records_view(), n@).unwrap().0,
                                entry_of(old(txn).records_view(), n@).unwrap().1,
                            ),
                        )
                    } else {
                        old(env).table_view()
                    }
                },
                None => {
                    &&& final(txn).records_view() == old(txn).records_view()
                    &&& final(txn).pending_view() == old(txn).pending_view()
                    &&& final(env).table_view() == old(env).table_view()
                },
            }),
    {
        let n = match name {
            None => {
                return Ok(Database { slot: 0 });
            },
            Some(n) => n,
        };
        match env.table.lookup(n) {
            Some((slot, f0)) => {
                if f0 == flags.persisted() {
                    Ok(Database { slot })
                } else {
                    Err(DbError::IncompatibleFlags)
                }
            },
            None => {
                match store_find(&txn.records, 0, n) {
                    Some(i) => {
                        proof {
                            assert(recs(txn.records@)[i as int].value == txn.records@[
                                i as int
                            ]@.value);
                        }
                        match crate::codec::decode_entry(&txn.records[i].value) {
                            Some((slot, f0)) => {
                                if f0 == flags.persisted() {
                                    proof {
                                        assert(entry_of(txn.records_view(), n@) == Some(
                                            (slot, f0),
                                        ));
                                        assert(1 <= slot);
                                        assert(!f0.create);
                                    }
                                    let staged = match store_find(&txn.pending, 0, n) {
                                        Some(_) => true,
                                        None => false,
                                    };
                                    proof {
                                        if staged {
                                            lemma_stored_some_index(txn.pending_view(), 0, n@);
                                            let w = choose|w: int|
                                                0 <= w < txn.pending_view().len()
                                                    && crate::store::rec_matches(
                                                    #[trigger] txn.pending_view()[w],
                                                    0,
                                                    n@,
                                                ) && txn.pending_view()[w].value == stored(
                                                    txn.pending_view(),
                                                    0,
                                                    n@,
                                                ).unwrap();
                                            assert(parse_entry(
                                                txn.pending_view()[w].value,
                                            ) is Some);
                                            assert(entry_of(txn.pending_view(), n@) is Some);
                                        } else {
                                            assert(entry_of(txn.pending_view(), n@) is None);
                                            assert(entry_of(txn.base_view(), n@) == Some(
                                                (slot, f0),
                                            ));
                                        }
                                    }
                                    if !staged {
                                        let ghost tb = env.table@;
                                        let res = env.table.insert(n, slot, f0);
                                        proof {
                                            assert forall|n2: Seq<u8>|
                                                #[trigger] entry_of(
                                                    env.table@,
                                                    n2,
                                                ) is Some implies entry_of(
                                                env.committed_view(),
                                                n2,
                                            ) == entry_of(env.table@, n2) by {
                                                if n2 == n@ {
                                                    match entry_of(tb, n@) {
                                                        Some(_) => {},
                                                        None => {},
                                                    }
                                                } else {
                                                    assert(entry_of(env.table@, n2) == entry_of(
                                                        tb,
                                                        n2,
                                                    ));
                                                }
                                            }
                                        }
                                        // A full table leaves the entry
                                        // uncached; the handle still stands.
                                        match res {
                                            Ok(_) => (),
                                            Err(_) => (),
                                        }
                                    }
                                    Ok(Database { slot })
                                } else {
                                    Err(DbError::IncompatibleFlags)
                                }
                            },
                            None => {
                                // A root-slot record always parses in a
                                // well-formed store; this arm is unreachable.
                                proof {
                                    assert(false);
                                }
                                Err(DbError::CorruptCatalog)
                            },
                        }
                    },
                    None => {
                        if !flags.create {
                            Err(DbError::DatabaseNotFound)
                        } else if !txn.read_write {
                            Err(DbError::ReadOnlyTransaction)
                        } else {
                            let count = count_catalog(&txn.records);
                            if count as u64 >= env.max_databases {
                                Err(DbError::TooManyDatabases)
                            } else {
                                let slot = count as u64 + 1;
                                let fp = flags.persisted();
                                let ghost o = txn.records_view();
                                let ghost op = txn.pending_view();
                                let ghost r_img = cat_rec(n@, slot, fp);
                                store_put(
                                    &mut txn.records,
                                    0,
                                    copy_bytes(n),
                                    crate::codec::encode_entry(slot, &fp),
                                );
                                txn.pending.push(
                                    Record {
                                        slot: 0,
                                        key: copy_bytes(n),
                                        value: crate::codec::encode_entry(slot, &fp),
                                    },
                                );
                                proof {
                                    let r_new = cat_rec(n@, slot, fp);
                                    assert(r_img == r_new);
                                    assert(recs(txn.records@) == o.push(r_new));
                                    assert(recs(txn.pending@) =~= op.push(r_new));
                                    lemma_create_effect(o, op, old(txn).base_view(), n@, slot, fp);
                                }
                                Ok(Database { slot })
                            }
                        }
                    },
                }
            },
        }
    }
}

/// A write to a named database (a positive slot) leaves the catalog region
/// of the store — every root-slot record — exactly as it was.
proof fn lemma_data_put_keeps_catalog(
    o: Seq<RecImage>,
    n: Seq<RecImage>,
    slot: u64,
    key: Seq<u8>,
    value: Seq<u8>,
)
    requires
        catalog_wf(o),
        slot >= 1,
        ({
            let r = (RecImage { slot, key, value });
            if stored(o, slot, key) is Some {
                exists|i: int|
                    0 <= i < o.len() && crate::store::rec_matches(o[i], slot, key) && n
                        == o.update(i, r)
            } else {
                n == o.push(r)
            }
        }),
        unique_keys(n),
        catalog_count(n) == catalog_count(o),
    ensures
        catalog_wf(n),
        forall|n2: Seq<u8>| #[trigger] stored(n, 0, n2) == stored(o, 0, n2),
{
    let r = RecImage { slot, key, value };
    if stored(o, slot, key) is Some {
        let i = choose|i: int|
            0 <= i < o.len() && crate::store::rec_matches(#[trigger] o[i], slot, key) && n
                == o.update(i, r);
        assert forall|j: int| 0 <= j < i implies !crate::store::rec_matches(
            o[j],
            slot,
            key,
        ) by {
            assert(!(o[j].slot == o[i].slot && o[j].key == o[i].key));
        }
        crate::store::lemma_stored_update(o, i, r);
        assert forall|k: int| 0 <= k < n.len() && n[k].slot == 0 implies {
            &&& #[trigger] parse_entry(n[k].value) is Some
            &&& 1 <= parse_entry(n[k].value).unwrap().0 <= catalog_count(n)
        } by {
            assert(k != i);
            assert(n[k] == o[k]);
        }
        assert forall|a: int, b: int|
            0 <= a < b < n.len() && n[a].slot == 0 && n[b].slot == 0 implies parse_entry(
            n[a].value,
        ).unwrap().0 != parse_entry(n[b].value).unwrap().0 by {
            assert(a != i && b != i);
            assert(n[a] == o[a] && n[b] == o[b]);
        }
        assert forall|n2: Seq<u8>| #[trigger] stored(n, 0, n2) == stored(o, 0, n2) by { assert(0u64 != slot); }
    } else {
        lemma_stored_push(o, r);
        assert forall|k: int| 0 <= k < n.len() && n[k].slot == 0 implies {
            &&& #[trigger] parse_entry(n[k].value) is Some
            &&& 1 <= parse_entry(n[k].value).unwrap().0 <= catalog_count(n)
        } by {
            assert(k < o.len());
            assert(n[k] == o[k]);
        }
        assert forall|a: int, b: int|
            0 <= a < b < n.len() && n[a].slot == 0 && n[b].slot == 0 implies parse_entry(
            n[a].value,
        ).unwrap().0 != parse_entry(n[b].value).unwrap().0 by {
            assert(a < o.len() && b < o.len());
            assert(n[a] == o[a] && n[b] == o[b]);
        }
        assert forall|n2: Seq<u8>| #[trigger] stored(n, 0, n2) == stored(o, 0, n2) by { assert(0u64 != slot); }
    }
}

/// A deletion in a named database (a positive slot) leaves the catalog
/// region of the store exactly as it was.
proof fn lemma_data_delete_keeps_catalog(o: Seq<RecImage>, n: Seq<RecImage>, slot: u64, key: Seq<
    u8,
>)
    requires
        catalog_wf(o),
        slot >= 1,
        ({
            if stored(o, slot, key) is Some {
                exists|i: int|
                    0 <= i < o.len() && crate::store::rec_matches(o[i], slot, key) && n
                        == o.remove(i)
            } else {
                n == o
            }
        }),
        unique_keys(n),
        catalog_count(n) == catalog_count(o),
        stored(n, slot, key) is None,
        forall|slot2: u64, key2: Seq<u8>|
            !(slot2 == slot && key2 == key) ==> stored(n, slot2, key2) == stored(o, slot2, key2),
    ensures
        catalog_wf(n),
        forall|n2: Seq<u8>| #[trigger] stored(n, 0, n2) == stored(o, 0, n2),
{
    if stored(o, slot, key) is Some {
        let i = choose|i: int|
            0 <= i < o.len() && crate::store::rec_matches(#[trigger] o[i], slot, key) && n
                == o.remove(i);
        assert forall|k: int| 0 <= k < n.len() && n[k].slot == 0 implies {
            &&& #[trigger] parse_entry(n[k].value) is Some
            &&& 1 <= parse_entry(n[k].value).unwrap().0 <= catalog_count(n)
        } by {
            let k0: int = if k < i {
                k
            } else {
                k + 1
            };
            assert(n[k] == o[k0]);
        }
        assert forall|a: int, b: int|
            0 <= a < b < n.len() && n[a].slot == 0 && n[b].slot == 0 implies parse_entry(
            n[a].value,
        ).unwrap().0 != parse_entry(n[b].value).unwrap().0 by {
            let a0: int = if a < i {
                a
            } else {
                a + 1
            };
            let b0: int = if b < i {
                b
            } else {
                b + 1
            };
            assert(n[a] == o[a0] && n[b] == o[b0]);
        }
    }
    assert forall|n2: Seq<u8>| #[trigger] stored(n, 0, n2) == stored(o, 0, n2) by {
        assert(0u64 != slot);
    }
}

/// The heart of the creation path's proof: pushing the freshly allocated
/// catalog record onto both the snapshot and the staged entries preserves
/// every transaction invariant and effects exactly one new entry.
proof fn lemma_create_effect(
    o: Seq<RecImage>,
    op: Seq<RecImage>,
    base: Seq<RecImage>,
    name: Seq<u8>,
    slot: u64,
    fp: DbFlags,
)
    requires
        catalog_wf(o),
        forall|i: int|
            0 <= i < op.len() ==> {
                &&& (#[trigger] op[i]).slot == 0
                &&& parse_entry(op[i].value) is Some
                &&& 1 <= parse_entry(op[i].value).unwrap().0
            },
        unique_keys(op),
        forall|n2: Seq<u8>| #[trigger] entry_of(op, n2) is Some ==> entry_of(base, n2) is None,
        forall|n2: Seq<u8>|
            #[trigger] entry_of(o, n2) == if entry_of(op, n2) is Some {
                entry_of(op, n2)
            } else {
                entry_of(base, n2)
            },
        stored(o, 0, name) is None,
        slot == catalog_count(o) + 1,
        !fp.create,
    ensures
        ({
            let r = cat_rec(name, slot, fp);
            let o2 = o.push(r);
            let op2 = op.push(r);
            &&& catalog_wf(o2)
            &&& forall|i: int|
                0 <= i < op2.len() ==> {
                    &&& (#[trigger] op2[i]).slot == 0
                    &&& parse_entry(op2[i].value) is Some
                    &&& 1 <= parse_entry(op2[i].value).unwrap().0
                }
            &&& unique_keys(op2)
            &&& forall|n2: Seq<u8>|
                #[trigger] entry_of(op2, n2) is Some ==> entry_of(base, n2) is None
            &&& forall|n2: Seq<u8>|
                #[trigger] entry_of(o2, n2) == if entry_of(op2, n2) is Some {
                    entry_of(op2, n2)
                } else {
                    entry_of(base, n2)
                }
            &&& entry_of(o2, name) == Some((slot, fp))
        }),
{
    let r = cat_rec(name, slot, fp);
    let o2 = o.push(r);
    let op2 = op.push(r);
    crate::codec::lemma_entry_round_trip(slot, fp);
    assert(fp.persisted_spec() == fp);
    assert(parse_entry(r.value) == Some((slot, fp)));
    if stored(op, 0, name) is Some {
        lemma_stored_some_index(op, 0, name);
        let w = choose|w: int|
            0 <= w < op.len() && crate::store::rec_matches(#[trigger] op[w], 0, name)
                && op[w].value == stored(op, 0, name).unwrap();
        assert(parse_entry(op[w].value) is Some);
        assert(entry_of(op, name) is Some);
        assert(entry_of(o, name) == entry_of(op, name));
        assert(false);
    }
    lemma_stored_push(o, r);
    lemma_stored_push(op, r);
    crate::store::lemma_count_push(o, r);
    lemma_stored_none_inv(o, 0, name);
    lemma_stored_none_inv(op, 0, name);
    assert(catalog_count(o2) == catalog_count(o) + 1);
    // The snapshot's catalog stays well formed.
    assert forall|a: int, b: int|
        0 <= a < b < o2.len() implies !(o2[a].slot == o2[b].slot && o2[a].key == o2[b].key) by {
        if b < o.len() {
            assert(o2[a] == o[a] && o2[b] == o[b]);
        } else {
            assert(o2[a] == o[a] && o2[b] == r);
        }
    }
    assert forall|i: int| 0 <= i < o2.len() && o2[i].slot == 0 implies {
        &&& #[trigger] parse_entry(o2[i].value) is Some
        &&& 1 <= parse_entry(o2[i].value).unwrap().0 <= catalog_count(o2)
    } by {
        if i < o.len() {
            assert(o2[i] == o[i]);
            assert(parse_entry(o[i].value) is Some);
            assert(parse_entry(o[i].value).unwrap().0 <= catalog_count(o));
        } else {
            assert(o2[i] == r);
        }
    }
    assert forall|a: int, b: int|
        0 <= a < b < o2.len() && o2[a].slot == 0 && o2[b].slot == 0 implies parse_entry(
        o2[a].value,
    ).unwrap().0 != parse_entry(o2[b].value).unwrap().0 by {
        if b < o.len() {
            assert(o2[a] == o[a] && o2[b] == o[b]);
        } else {
            assert(o2[a] == o[a] && o2[b] == r);
            assert(parse_entry(o[a].value).unwrap().0 <= catalog_count(o));
        }
    }
    // The staged entries stay parsable catalog records with unique names.
    assert forall|i: int| 0 <= i < op2.len() implies {
        &&& (#[trigger] op2[i]).slot == 0
        &&& parse_entry(op2[i].value) is Some
        &&& 1 <= parse_entry(op2[i].value).unwrap().0
    } by {
        if i < op.len() {
            assert(op2[i] == op[i]);
        } else {
            assert(op2[i] == r);
        }
    }
    assert forall|a: int, b: int|
        0 <= a < b < op2.len() implies !(op2[a].slot == op2[b].slot && op2[a].key
        == op2[b].key) by {
        if b < op.len() {
            assert(op2[a] == op[a] && op2[b] == op[b]);
        } else {
            assert(op2[a] == op[a] && op2[b] == r);
        }
    }
    // The new name was absent from the base, and staged names stay so.
    assert(entry_of(op, name) is None);
    assert(entry_of(o, name) is None);
    assert(entry_of(base, name) is None);
    assert forall|n2: Seq<u8>| #[trigger] entry_of(op2, n2) is Some implies entry_of(
        base,
        n2,
    ) is None by {
        if n2 == name {
        } else {
            assert(stored(op2, 0, n2) == stored(op, 0, n2));
            assert(entry_of(op2, n2) == entry_of(op, n2));
        }
    }
    // The snapshot's catalog is the base overridden by the staged entries.
    assert forall|n2: Seq<u8>| #[trigger] entry_of(o2, n2) == if entry_of(op2, n2) is Some {
        entry_of(op2, n2)
    } else {
        entry_of(base, n2)
    } by {
        if n2 == name {
            assert(stored(o2, 0, name) == Some(r.value));
            assert(stored(op2, 0, name) == Some(r.value));
        } else {
            assert(stored(o2, 0, n2) == stored(o, 0, n2));
            assert(stored(op2, 0, n2) == stored(op, 0, n2));
            assert(entry_of(o2, n2) == entry_of(o, n2));
            assert(entry_of(op2, n2) == entry_of(op, n2));
            assert(entry_of(o, n2) == if entry_of(op, n2) is Some {
                entry_of(op, n2)
            } else {
                entry_of(base, n2)
            });
        }
    }
    assert(stored(o2, 0, name) == Some(r.value));
}

/// Resolves a name (or the default database) to a handle: the single
/// authorized path to a [`Database`].  See [`Database::new`].
pub fn resolve(
    env: &mut Environment,
    txn: &mut Transaction,
    name: Option<&Vec<u8>>,
    flags: DbFlags,
) -> (r: Result<Database, DbError>)
    requires
        old(env).wf(),
        old(txn).wf(),
        old(txn).base_view() == old(env).committed_view(),
    ensures
        final(env).wf(),
        final(txn).wf(),
        final(txn).base_view() == old(txn).base_view(),
        final(env).committed_view() == old(env).committed_view(),
        (match r {
            Ok(db) => resolve_outcome(*old(env), *old(txn), name_image(name), flags)
                == Ok::<u64, DbError>(db@),
            Err(e) => resolve_outcome(*old(env), *old(txn), name_image(name), flags)
                == Err::<u64, DbError>(e),
        }),
{
    Database::new(env, txn, name, flags)
}

} // verus!
