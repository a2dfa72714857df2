//! The laws of handle resolution, stated and proved over the resolver's
//! decision function and the store's views.
//!
//! Each lemma's hypotheses are exactly what the resolver's and the
//! transaction operations' contracts establish, so a caller chaining
//! `begin`, `Database::new`, `commit` and `abort` can instantiate them
//! directly.

use vstd::prelude::*;

use crate::env::{creates_entry, next_slot, resolve_outcome, Environment, Transaction};
use crate::errors::DbError;
use crate::flags::DbFlags;
use crate::store::{cat_rec, catalog_count, entry_of, lemma_stored_push, lemma_stored_some_index,
    stored};

verus! {

/// A name that the transaction's catalog view does not hold — never created,
/// or created only in other uncommitted transactions — resolves without
/// `create` to `DatabaseNotFound`.  In particular the handle table cannot
/// hold it either: a cached entry is always a committed one.
pub proof fn lemma_unknown_name_not_found(
    env: Environment,
    txn: Transaction,
    name: Seq<u8>,
    flags: DbFlags,
)
    requires
        env.wf(),
        txn.wf(),
        txn.base_view() == env.committed_view(),
        entry_of(txn.records_view(), name) is None,
        !flags.create,
    ensures
        resolve_outcome(env, txn, Some(name), flags) == Err::<u64, DbError>(
            DbError::DatabaseNotFound,
        ),
{
    assert(entry_of(txn.records_view(), name) == if entry_of(txn.pending_view(), name) is Some {
        entry_of(txn.pending_view(), name)
    } else {
        entry_of(txn.base_view(), name)
    });
    if entry_of(env.table_view(), name) is Some {
        assert(entry_of(env.committed_view(), name) == entry_of(env.table_view(), name));
        assert(false);
    }
}

/// Creating a name stages a catalog entry for the next free slot: once the
/// creating transaction's records are committed, the committed catalog binds
/// the name to exactly that slot and the persisted flags.
pub proof fn lemma_create_then_commit_entry(
    env0: Environment,
    txn0: Transaction,
    name: Seq<u8>,
    flags: DbFlags,
)
    requires
        env0.wf(),
        txn0.wf(),
        txn0.base_view() == env0.committed_view(),
        creates_entry(env0, txn0, name, flags),
    ensures
        entry_of(
            txn0.records_view().push(cat_rec(name, next_slot(txn0), flags.persisted_spec())),
            name,
        ) == Some((next_slot(txn0), flags.persisted_spec())),
{
    let o = txn0.records_view();
    let slot = next_slot(txn0);
    let fp = flags.persisted_spec();
    let r = cat_rec(name, slot, fp);
    if stored(o, 0, name) is Some {
        lemma_stored_some_index(o, 0, name);
        let w = choose|w: int|
            0 <= w < o.len() && crate::store::rec_matches(#[trigger] o[w], 0, name) && o[w].value
                == stored(o, 0, name).unwrap();
        assert(crate::codec::parse_entry(o[w].value) is Some);
        assert(entry_of(o, name) is Some);
        assert(false);
    }
    lemma_stored_push(o, r);
    crate::codec::lemma_entry_round_trip(slot, fp);
    assert(fp.persisted_spec() == fp);
}

/// A committed name resolves, in a fresh transaction and under any flag set
/// whose persisted part matches the stored one (with or without `create`),
/// to the very slot the catalog holds: together with
/// [`lemma_create_then_commit_entry`], create-commit-resolve returns the
/// created slot, and a second create after the first commit returns the same
/// handle instead of allocating again.
pub proof fn lemma_committed_name_resolves(
    env1: Environment,
    txn1: Transaction,
    name: Seq<u8>,
    slot: u64,
    fp: DbFlags,
    flags2: DbFlags,
)
    requires
        env1.wf(),
        txn1.wf(),
        txn1.base_view() == env1.committed_view(),
        entry_of(env1.committed_view(), name) == Some((slot, fp)),
        txn1.records_view() == env1.committed_view(),
        flags2.persisted_spec() == fp,
    ensures
        resolve_outcome(env1, txn1, Some(name), flags2) == Ok::<u64, DbError>(slot),
{
    match entry_of(env1.table_view(), name) {
        Some(e) => {
            assert(entry_of(env1.committed_view(), name) == entry_of(env1.table_view(), name));
        },
        None => {},
    }
}

/// Idempotence inside one transaction: after the creation path has staged a
/// name, resolving the same name again in the same transaction (still with
/// `create`) returns the same slot through the catalog view, and takes the
/// creation path no more — no second entry, no second slot.
pub proof fn lemma_create_idempotent(
    env: Environment,
    txn0: Transaction,
    txn1: Transaction,
    name: Seq<u8>,
    flags: DbFlags,
)
    requires
        env.wf(),
        txn0.wf(),
        txn0.base_view() == env.committed_view(),
        creates_entry(env, txn0, name, flags),
        txn1.records_view() == txn0.records_view().push(
            cat_rec(name, next_slot(txn0), flags.persisted_spec()),
        ),
        txn1.is_rw() == txn0.is_rw(),
    ensures
        resolve_outcome(env, txn1, Some(name), flags) == Ok::<u64, DbError>(next_slot(txn0)),
        !creates_entry(env, txn1, name, flags),
{
    let o = txn0.records_view();
    let slot = next_slot(txn0);
    let fp = flags.persisted_spec();
    let r = cat_rec(name, slot, fp);
    if stored(o, 0, name) is Some {
        lemma_stored_some_index(o, 0, name);
        let w = choose|w: int|
            0 <= w < o.len() && crate::store::rec_matches(#[trigger] o[w], 0, name) && o[w].value
                == stored(o, 0, name).unwrap();
        assert(crate::codec::parse_entry(o[w].value) is Some);
        assert(entry_of(o, name) is Some);
        assert(false);
    }
    lemma_stored_push(o, r);
    crate::codec::lemma_entry_round_trip(slot, fp);
    assert(fp.persisted_spec() == fp);
    assert(entry_of(txn1.records_view(), name) == Some((slot, fp)));
}

/// Abort rollback: an aborted creation leaks nowhere.  Abort touches neither
/// the committed store nor the handle table (it does not even take the
/// environment), so in a fresh transaction a name whose creation was aborted
/// has no committed entry, hence no cached one, and resolving it without
/// `create` fails with `DatabaseNotFound`.
pub proof fn lemma_aborted_create_invisible(
    env: Environment,
    txn2: Transaction,
    name: Seq<u8>,
    flags: DbFlags,
)
    requires
        env.wf(),
        txn2.wf(),
        txn2.base_view() == env.committed_view(),
        txn2.records_view() == env.committed_view(),
        entry_of(env.committed_view(), name) is None,
        !flags.create,
    ensures
        resolve_outcome(env, txn2, Some(name), flags) == Err::<u64, DbError>(
            DbError::DatabaseNotFound,
        ),
{
    if entry_of(env.table_view(), name) is Some {
        assert(entry_of(env.committed_view(), name) == entry_of(env.table_view(), name));
        assert(false);
    }
}

/// Capacity: once as many catalog entries exist as the environment admits,
/// creating a further, unknown name fails with `TooManyDatabases` — and the
/// resolver's contract adds that nothing is mutated, so every existing name
/// stays resolvable.
pub proof fn lemma_capacity_exhausted(
    env: Environment,
    txn: Transaction,
    name: Seq<u8>,
    flags: DbFlags,
)
    requires
        env.wf(),
        txn.wf(),
        txn.base_view() == env.committed_view(),
        entry_of(env.table_view(), name) is None,
        entry_of(txn.records_view(), name) is None,
        flags.create,
        txn.is_rw(),
        catalog_count(txn.records_view()) >= env.max_spec(),
    ensures
        resolve_outcome(env, txn, Some(name), flags) == Err::<u64, DbError>(
            DbError::TooManyDatabases,
        ),
{
}

/// Flag mismatch: a name whose catalog entry carries one persisted flag set,
/// resolved under a request whose persisted part differs, fails with
/// `IncompatibleFlags` — whether the entry is answered from the cache or
/// from the catalog.
pub proof fn lemma_flag_mismatch(
    env: Environment,
    txn: Transaction,
    name: Seq<u8>,
    slot: u64,
    fp: DbFlags,
    flags2: DbFlags,
)
    requires
        env.wf(),
        txn.wf(),
        txn.base_view() == env.committed_view(),
        entry_of(txn.records_view(), name) == Some((slot, fp)),
        flags2.persisted_spec() != fp,
    ensures
        resolve_outcome(env, txn, Some(name), flags2) == Err::<u64, DbError>(
            DbError::IncompatibleFlags,
        ),
{
    assert(entry_of(txn.records_view(), name) == if entry_of(txn.pending_view(), name) is Some {
        entry_of(txn.pending_view(), name)
    } else {
        entry_of(txn.base_view(), name)
    });
    match entry_of(env.table_view(), name) {
        Some(e) => {
            assert(entry_of(env.committed_view(), name) == entry_of(env.table_view(), name));
            if entry_of(txn.pending_view(), name) is Some {
                assert(entry_of(txn.base_view(), name) is None);
                assert(false);
            }
            assert(e == (slot, fp));
        },
        None => {},
    }
}

} // verus!
