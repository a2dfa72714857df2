use db_handles::env::{resolve, Database, Environment};
use db_handles::errors::DbError;
use db_handles::flags::DbFlags;

fn name(s: &str) -> Vec<u8> {
    s.as_bytes().to_vec()
}

#[test]
fn unknown_name_not_found() {
    let mut env = Environment::new(5);
    let mut txn = env.begin(false);
    let n = name("missing");
    let r = resolve(&mut env, &mut txn, Some(&n), DbFlags::none());
    assert_eq!(r, Err(DbError::DatabaseNotFound));
}

#[test]
fn default_handle_is_root() {
    let mut env = Environment::new(5);
    let mut txn = env.begin(false);
    let r = resolve(&mut env, &mut txn, None, DbFlags::none());
    let db = r.unwrap();
    assert_eq!(db.dbi(), 0);
    // Flags are ignored for the default database.
    let mut txn2 = env.begin(false);
    let r2 = resolve(&mut env, &mut txn2, None, DbFlags::none().with_create());
    assert_eq!(r2.unwrap(), db);
}

#[test]
fn create_needs_write_transaction() {
    let mut env = Environment::new(5);
    let mut txn = env.begin(false);
    let n = name("fresh");
    let r = resolve(&mut env, &mut txn, Some(&n), DbFlags::none().with_create());
    assert_eq!(r, Err(DbError::ReadOnlyTransaction));
}

#[test]
fn create_commit_then_resolve_same_slot() {
    let mut env = Environment::new(5);
    let mut txn = env.begin(true);
    let n = name("alpha");
    let created = Database::new(&mut env, &mut txn, Some(&n), DbFlags::none().with_create())
        .unwrap();
    assert_eq!(created.dbi(), 1);
    env.commit(txn).unwrap();
    let mut txn2 = env.begin(false);
    let reopened = Database::new(&mut env, &mut txn2, Some(&n), DbFlags::none()).unwrap();
    assert_eq!(reopened.dbi(), created.dbi());
    assert_eq!(reopened, created);
}

#[test]
fn create_idempotent_within_one_transaction() {
    let mut env = Environment::new(5);
    let mut txn = env.begin(true);
    let n = name("again");
    let first = resolve(&mut env, &mut txn, Some(&n), DbFlags::none().with_create()).unwrap();
    let second = resolve(&mut env, &mut txn, Some(&n), DbFlags::none().with_create()).unwrap();
    assert_eq!(first, second);
}

#[test]
fn create_idempotent_across_transactions() {
    let mut env = Environment::new(5);
    let mut txn = env.begin(true);
    let n = name("shared");
    let first = resolve(&mut env, &mut txn, Some(&n), DbFlags::none().with_create()).unwrap();
    env.commit(txn).unwrap();
    let mut txn2 = env.begin(true);
    let second = resolve(&mut env, &mut txn2, Some(&n), DbFlags::none().with_create()).unwrap();
    env.commit(txn2).unwrap();
    let mut txn3 = env.begin(true);
    let third = resolve(&mut env, &mut txn3, Some(&n), DbFlags::none().with_create()).unwrap();
    env.abort(txn3);
    assert_eq!(first.dbi(), 1);
    assert_eq!(second, first);
    assert_eq!(third, first);
}

#[test]
fn aborted_create_does_not_leak() {
    let mut env = Environment::new(5);
    let mut txn = env.begin(true);
    let n = name("x");
    let r = resolve(&mut env, &mut txn, Some(&n), DbFlags::none().with_create());
    assert!(r.is_ok());
    env.abort(txn);
    let mut txn2 = env.begin(false);
    let r2 = resolve(&mut env, &mut txn2, Some(&n), DbFlags::none());
    assert_eq!(r2, Err(DbError::DatabaseNotFound));
}

#[test]
fn capacity_two_then_third_fails() {
    let mut env = Environment::new(2);
    let mut txn = env.begin(true);
    let a = name("a");
    let b = name("b");
    let c = name("c");
    let da = resolve(&mut env, &mut txn, Some(&a), DbFlags::none().with_create()).unwrap();
    let db = resolve(&mut env, &mut txn, Some(&b), DbFlags::none().with_create()).unwrap();
    assert_eq!(da.dbi(), 1);
    assert_eq!(db.dbi(), 2);
    let rc = resolve(&mut env, &mut txn, Some(&c), DbFlags::none().with_create());
    assert_eq!(rc, Err(DbError::TooManyDatabases));
    env.commit(txn).unwrap();
    // The first two remain resolvable; the third still fails.
    let mut txn2 = env.begin(true);
    let ra = resolve(&mut env, &mut txn2, Some(&a), DbFlags::none()).unwrap();
    let rb = resolve(&mut env, &mut txn2, Some(&b), DbFlags::none()).unwrap();
    assert_eq!(ra, da);
    assert_eq!(rb, db);
    let rc2 = resolve(&mut env, &mut txn2, Some(&c), DbFlags::none().with_create());
    assert_eq!(rc2, Err(DbError::TooManyDatabases));
}

#[test]
fn flag_mismatch_is_incompatible() {
    let mut env = Environment::new(5);
    let mut txn = env.begin(true);
    let d = name("d");
    let mut dup_sort = DbFlags::none();
    dup_sort.dup_sort = true;
    let created = resolve(&mut env, &mut txn, Some(&d), dup_sort.with_create()).unwrap();
    assert_eq!(created.dbi(), 1);
    env.commit(txn).unwrap();
    let mut txn2 = env.begin(false);
    let mut integer_key = DbFlags::none();
    integer_key.integer_key = true;
    let r = resolve(&mut env, &mut txn2, Some(&d), integer_key);
    assert_eq!(r, Err(DbError::IncompatibleFlags));
    // The matching persisted flags still open it.
    let r2 = resolve(&mut env, &mut txn2, Some(&d), dup_sort);
    assert_eq!(r2.unwrap(), created);
}

#[test]
fn flag_mismatch_on_cached_entry() {
    let mut env = Environment::new(5);
    let mut txn = env.begin(true);
    let d = name("cached");
    let mut dup_sort = DbFlags::none();
    dup_sort.dup_sort = true;
    resolve(&mut env, &mut txn, Some(&d), dup_sort.with_create()).unwrap();
    env.commit(txn).unwrap();
    // First reopen caches the entry; the mismatching request still fails.
    let mut txn2 = env.begin(false);
    resolve(&mut env, &mut txn2, Some(&d), dup_sort).unwrap();
    let r = resolve(&mut env, &mut txn2, Some(&d), DbFlags::none());
    assert_eq!(r, Err(DbError::IncompatibleFlags));
}

#[test]
fn staged_entry_visible_only_inside_its_transaction() {
    let mut env = Environment::new(5);
    let mut txn = env.begin(true);
    let n = name("staged");
    let created = resolve(&mut env, &mut txn, Some(&n), DbFlags::none().with_create()).unwrap();
    // Inside the same transaction the staged entry resolves without CREATE.
    let seen = resolve(&mut env, &mut txn, Some(&n), DbFlags::none()).unwrap();
    assert_eq!(seen, created);
    env.abort(txn);
    // A snapshot taken afterwards does not see it.
    let mut txn2 = env.begin(false);
    let r = resolve(&mut env, &mut txn2, Some(&n), DbFlags::none());
    assert_eq!(r, Err(DbError::DatabaseNotFound));
}

#[test]
fn slots_stay_stable_per_name() {
    let mut env = Environment::new(5);
    let mut txn = env.begin(true);
    let a = name("first");
    let b = name("second");
    let da = resolve(&mut env, &mut txn, Some(&a), DbFlags::none().with_create()).unwrap();
    let db = resolve(&mut env, &mut txn, Some(&b), DbFlags::none().with_create()).unwrap();
    env.commit(txn).unwrap();
    assert_eq!(da.dbi(), 1);
    assert_eq!(db.dbi(), 2);
    let mut txn2 = env.begin(false);
    assert_eq!(resolve(&mut env, &mut txn2, Some(&b), DbFlags::none()).unwrap(), db);
    assert_eq!(resolve(&mut env, &mut txn2, Some(&a), DbFlags::none()).unwrap(), da);
}

#[test]
fn data_put_and_get_through_a_handle() {
    let mut env = Environment::new(5);
    let mut txn = env.begin(true);
    let n = name("data");
    let db = resolve(&mut env, &mut txn, Some(&n), DbFlags::none().with_create()).unwrap();
    txn.put(db, b"k".to_vec(), b"v".to_vec()).unwrap();
    assert_eq!(txn.get(db, &b"k".to_vec()), Some(b"v".to_vec()));
    assert_eq!(txn.get(db, &b"absent".to_vec()), None);
    // Overwrites replace the value in place.
    txn.put(db, b"k".to_vec(), b"w".to_vec()).unwrap();
    assert_eq!(txn.get(db, &b"k".to_vec()), Some(b"w".to_vec()));
    env.commit(txn).unwrap();
    // The committed value is visible to a later snapshot; an aborted one is not.
    let mut txn2 = env.begin(true);
    txn2.put(db, b"k".to_vec(), b"lost".to_vec()).unwrap();
    env.abort(txn2);
    let txn3 = env.begin(false);
    assert_eq!(txn3.get(db, &b"k".to_vec()), Some(b"w".to_vec()));
}

#[test]
fn data_put_needs_write_transaction() {
    let mut env = Environment::new(5);
    let mut txn = env.begin(true);
    let n = name("ro");
    let db = resolve(&mut env, &mut txn, Some(&n), DbFlags::none().with_create()).unwrap();
    env.commit(txn).unwrap();
    let mut ro = env.begin(false);
    assert_eq!(
        ro.put(db, b"k".to_vec(), b"v".to_vec()),
        Err(DbError::ReadOnlyTransaction)
    );
    assert_eq!(ro.get(db, &b"k".to_vec()), None);
}

#[test]
fn data_delete_removes_only_its_key() {
    let mut env = Environment::new(5);
    let mut txn = env.begin(true);
    let n = name("deldb");
    let db = resolve(&mut env, &mut txn, Some(&n), DbFlags::none().with_create()).unwrap();
    txn.put(db, b"k1".to_vec(), b"v1".to_vec()).unwrap();
    txn.put(db, b"k2".to_vec(), b"v2".to_vec()).unwrap();
    assert_eq!(txn.delete(db, &b"k1".to_vec()), Ok(true));
    assert_eq!(txn.delete(db, &b"k1".to_vec()), Ok(false));
    assert_eq!(txn.get(db, &b"k1".to_vec()), None);
    assert_eq!(txn.get(db, &b"k2".to_vec()), Some(b"v2".to_vec()));
    env.commit(txn).unwrap();
    // The database's name still resolves after deletions inside it.
    let mut txn2 = env.begin(false);
    assert_eq!(resolve(&mut env, &mut txn2, Some(&n), DbFlags::none()).unwrap(), db);
    let mut ro = env.begin(false);
    assert_eq!(ro.delete(db, &b"k2".to_vec()), Err(DbError::ReadOnlyTransaction));
}

#[test]
fn read_only_commit_is_a_no_op() {
    let mut env = Environment::new(5);
    let mut txn = env.begin(true);
    let n = name("kept");
    resolve(&mut env, &mut txn, Some(&n), DbFlags::none().with_create()).unwrap();
    env.commit(txn).unwrap();
    let ro = env.begin(false);
    env.commit(ro).unwrap();
    let mut txn2 = env.begin(false);
    assert!(resolve(&mut env, &mut txn2, Some(&n), DbFlags::none()).is_ok());
}
