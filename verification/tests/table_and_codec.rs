use db_handles::codec::{decode_entry, encode_entry};
use db_handles::errors::DbError;
use db_handles::flags::DbFlags;
use db_handles::table::HandleTable;

#[test]
fn entry_layout_is_slot_le_then_flag_bytes() {
    let mut f = DbFlags::none();
    f.dup_sort = true;
    let bytes = encode_entry(5, &f);
    assert_eq!(bytes, vec![5, 0, 0, 0, 0, 0, 0, 0, 0, 1, 0, 0, 0, 0]);
    let wide = encode_entry(0x0102030405060708, &DbFlags::none());
    assert_eq!(wide, vec![8, 7, 6, 5, 4, 3, 2, 1, 0, 0, 0, 0, 0, 0]);
}

#[test]
fn entry_round_trips() {
    let mut f = DbFlags::none();
    f.reverse_key = true;
    f.integer_dup = true;
    let decoded = decode_entry(&encode_entry(42, &f)).unwrap();
    assert_eq!(decoded.0, 42);
    assert_eq!(decoded.1, f);
    // The CREATE request is never persisted.
    let decoded2 = decode_entry(&encode_entry(7, &f.with_create())).unwrap();
    assert_eq!(decoded2.1, f);
}

#[test]
fn malformed_entries_do_not_decode() {
    assert_eq!(decode_entry(&vec![1, 0, 0]), None);
    assert_eq!(decode_entry(&Vec::new()), None);
    let mut bad_flag = encode_entry(1, &DbFlags::none());
    bad_flag[9] = 2;
    assert_eq!(decode_entry(&bad_flag), None);
    let mut long = encode_entry(1, &DbFlags::none());
    long.push(0);
    assert_eq!(decode_entry(&long), None);
}

#[test]
fn table_lookup_and_idempotent_insert() {
    let mut t = HandleTable::new(4);
    let a = b"a".to_vec();
    assert_eq!(t.lookup(&a), None);
    t.insert(&a, 1, DbFlags::none()).unwrap();
    assert_eq!(t.lookup(&a), Some((1, DbFlags::none())));
    assert_eq!(t.len(), 1);
    // Inserting the same mapping again is a no-op.
    t.insert(&a, 1, DbFlags::none()).unwrap();
    assert_eq!(t.len(), 1);
}

#[test]
fn table_disagreement_is_corruption() {
    let mut t = HandleTable::new(4);
    let a = b"a".to_vec();
    t.insert(&a, 1, DbFlags::none()).unwrap();
    assert_eq!(t.insert(&a, 2, DbFlags::none()), Err(DbError::CorruptCatalog));
    let mut f = DbFlags::none();
    f.dup_sort = true;
    assert_eq!(t.insert(&a, 1, f), Err(DbError::CorruptCatalog));
    // The table is unchanged.
    assert_eq!(t.lookup(&a), Some((1, DbFlags::none())));
}

#[test]
fn table_capacity_is_enforced() {
    let mut t = HandleTable::new(2);
    t.insert(&b"a".to_vec(), 1, DbFlags::none()).unwrap();
    t.insert(&b"b".to_vec(), 2, DbFlags::none()).unwrap();
    assert_eq!(
        t.insert(&b"c".to_vec(), 3, DbFlags::none()),
        Err(DbError::TooManyDatabases)
    );
    // Cached names keep answering.
    assert_eq!(t.lookup(&b"a".to_vec()), Some((1, DbFlags::none())));
    assert_eq!(t.lookup(&b"b".to_vec()), Some((2, DbFlags::none())));
    assert_eq!(t.lookup(&b"c".to_vec()), None);
}
