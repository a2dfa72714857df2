//! The record store that stands in for the page-level storage engine.
//!
//! The engine proper (B-tree pages, copy-on-write commit, the memory map) is
//! outside this subsystem; what the resolver needs of it is only a flat bag
//! of `(slot, key) -> value` records with get and put.  This module models
//! that interface directly: a vector of records, looked up by first match,
//! with the invariant that no two live records share a slot and key.
//!
//! Catalog records live in the reserved root slot `0`: their key is the
//! database name and their value the `(slot, flags)` entry image of
//! [`crate::codec`].

use vstd::prelude::*;

use crate::codec::{entry_bytes, parse_entry};
use crate::flags::DbFlags;

verus! {

/// One key/value record of the store, scoped to a slot.
pub struct Record {
    /// The sub-database the record belongs to; `0` is the reserved root.
    pub slot: u64,
    /// The record's key; for a catalog record, the database name.
    pub key: Vec<u8>,
    /// The record's value; for a catalog record, the entry image.
    pub value: Vec<u8>,
}

/// The mathematical image of one record.
pub struct RecImage {
    /// The record's slot.
    pub slot: u64,
    /// The record's key bytes.
    pub key: Seq<u8>,
    /// The record's value bytes.
    pub value: Seq<u8>,
}

impl View for Record {
    type V = RecImage;

    open spec fn view(&self) -> RecImage {
        RecImage { slot: self.slot, key: self.key@, value: self.value@ }
    }
}

/// The image of a whole record vector.
pub open spec fn recs(v: Seq<Record>) -> Seq<RecImage> {
    v.map_values(|r: Record| r@)
}

/// Whether a record answers to a slot and key.
pub open spec fn rec_matches(r: RecImage, slot: u64, key: Seq<u8>) -> bool {
    r.slot == slot && r.key == key
}

/// The value stored under a slot and key: the first matching record's value.
pub open spec fn stored(s: Seq<RecImage>, slot: u64, key: Seq<u8>) -> Option<Seq<u8>>
    decreases s.len(),
{
    if s.len() == 0 {
        None
    } else if rec_matches(s[0], slot, key) {
        Some(s[0].value)
    } else {
        stored(s.subrange(1, s.len() as int), slot, key)
    }
}

/// No two records share a slot and key, so the first match is the only one.
pub open spec fn unique_keys(s: Seq<RecImage>) -> bool {
    forall|i: int, j: int|
        0 <= i < j < s.len() ==> !(s[i].slot == s[j].slot && s[i].key == s[j].key)
}

/// How many catalog records (root-slot records) the store holds.
pub open spec fn catalog_count(s: Seq<RecImage>) -> nat
    decreases s.len(),
{
    if s.len() == 0 {
        0
    } else {
        (if s[0].slot == 0 {
            1nat
        } else {
            0nat
        }) + catalog_count(s.subrange(1, s.len() as int))
    }
}

/// The image of a catalog record binding a name to a slot and flag set.
pub open spec fn cat_rec(name: Seq<u8>, slot: u64, f: DbFlags) -> RecImage {
    RecImage { slot: 0, key: name, value: entry_bytes(slot, f) }
}

/// The catalog entry recorded under a name, if any well-formed one is there.
pub open spec fn entry_of(s: Seq<RecImage>, name: Seq<u8>) -> Option<(u64, DbFlags)> {
    match stored(s, 0, name) {
        Some(v) => parse_entry(v),
        None => None,
    }
}

/// Well-formedness of the catalog region of a store: keys are unique, every
/// root-slot record parses to an entry whose flags carry no `create` bit and
/// whose slot is positive and within the number of catalog records, and no
/// two catalog records name the same slot.
pub open spec fn catalog_wf(s: Seq<RecImage>) -> bool {
    &&& unique_keys(s)
    &&& forall|i: int|
        0 <= i < s.len() && s[i].slot == 0 ==> {
            &&& #[trigger] parse_entry(s[i].value) is Some
            &&& 1 <= parse_entry(s[i].value).unwrap().0 <= catalog_count(s)
        }
    &&& forall|i: int, j: int|
        0 <= i < j < s.len() && s[i].slot == 0 && s[j].slot == 0 ==> parse_entry(
            s[i].value,
        ).unwrap().0 != parse_entry(s[j].value).unwrap().0
}

/// Stepping a lookup past one non-matching record.
pub proof fn lemma_stored_step(s: Seq<RecImage>, i: int, slot: u64, key: Seq<u8>)
    requires
        0 <= i < s.len(),
        !rec_matches(s[i], slot, key),
    ensures
        stored(s.subrange(i, s.len() as int), slot, key) == stored(
            s.subrange(i + 1, s.len() as int),
            slot,
            key,
        ),
{
    let t = s.subrange(i, s.len() as int);
    assert(t[0] == s[i]);
    assert(t.subrange(1, t.len() as int) =~= s.subrange(i + 1, s.len() as int));
}

/// A lookup that no record answers returns nothing.
pub proof fn lemma_stored_none(s: Seq<RecImage>, slot: u64, key: Seq<u8>)
    requires
        forall|j: int| 0 <= j < s.len() ==> !rec_matches(s[j], slot, key),
    ensures
        stored(s, slot, key) is None,
    decreases s.len(),
{
    if s.len() > 0 {
        let t = s.subrange(1, s.len() as int);
        assert(forall|j: int| 0 <= j < t.len() ==> t[j] == s[j + 1]);
        lemma_stored_none(t, slot, key);
    }
}

/// Conversely, when a lookup returns nothing, no record answers to it.
pub proof fn lemma_stored_none_inv(s: Seq<RecImage>, slot: u64, key: Seq<u8>)
    requires
        stored(s, slot, key) is None,
    ensures
        forall|j: int| 0 <= j < s.len() ==> !rec_matches(s[j], slot, key),
    decreases s.len(),
{
    if s.len() > 0 {
        let t = s.subrange(1, s.len() as int);
        lemma_stored_none_inv(t, slot, key);
        assert forall|j: int| 0 <= j < s.len() implies !rec_matches(s[j], slot, key) by {
            if j > 0 {
                assert(s[j] == t[j - 1]);
            }
        }
    }
}

/// A lookup that returns a value read it from some matching record.
pub proof fn lemma_stored_some_index(s: Seq<RecImage>, slot: u64, key: Seq<u8>)
    requires
        stored(s, slot, key) is Some,
    ensures
        exists|i: int|
            0 <= i < s.len() && rec_matches(#[trigger] s[i], slot, key) && s[i].value == stored(
                s,
                slot,
                key,
            ).unwrap(),
    decreases s.len(),
{
    if s.len() > 0 {
        if rec_matches(s[0], slot, key) {
            assert(rec_matches(s[0], slot, key) && s[0].value == stored(s, slot, key).unwrap());
        } else {
            let t = s.subrange(1, s.len() as int);
            lemma_stored_some_index(t, slot, key);
            let i = choose|i: int|
                0 <= i < t.len() && rec_matches(#[trigger] t[i], slot, key) && t[i].value
                    == stored(t, slot, key).unwrap();
            assert(t[i] == s[i + 1]);
            assert(rec_matches(s[i + 1], slot, key) && s[i + 1].value == stored(
                s,
                slot,
                key,
            ).unwrap());
        }
    }
}

/// A lookup lands on the first matching record.
pub proof fn lemma_stored_first(s: Seq<RecImage>, i: int, slot: u64, key: Seq<u8>)
    requires
        0 <= i < s.len(),
        rec_matches(s[i], slot, key),
        forall|j: int| 0 <= j < i ==> !rec_matches(s[j], slot, key),
    ensures
        stored(s, slot, key) == Some(s[i].value),
    decreases i,
{
    if i == 0 {
    } else {
        let t = s.subrange(1, s.len() as int);
        assert(t[i - 1] == s[i]);
        assert(forall|j: int| 0 <= j < i - 1 ==> t[j] == s[j + 1]);
        lemma_stored_first(t, i - 1, slot, key);
    }
}

/// Replacing the first record that answers to its own slot and key, by one
/// with the same slot and key, changes that lookup alone.
pub proof fn lemma_stored_update(s: Seq<RecImage>, i: int, r2: RecImage)
    requires
        0 <= i < s.len(),
        r2.slot == s[i].slot,
        r2.key == s[i].key,
        forall|j: int| 0 <= j < i ==> !rec_matches(s[j], s[i].slot, s[i].key),
    ensures
        stored(s.update(i, r2), s[i].slot, s[i].key) == Some(r2.value),
        forall|slot2: u64, key2: Seq<u8>|
            !(slot2 == s[i].slot && key2 == s[i].key) ==> stored(s.update(i, r2), slot2, key2)
                == stored(s, slot2, key2),
    decreases i,
{
    let s2 = s.update(i, r2);
    if i == 0 {
        assert(s2[0] == r2);
        assert(s2.subrange(1, s2.len() as int) =~= s.subrange(1, s.len() as int));
    } else {
        let t = s.subrange(1, s.len() as int);
        let t2 = s2.subrange(1, s2.len() as int);
        assert(s2[0] == s[0]);
        assert(t2 =~= t.update(i - 1, r2));
        assert(t[i - 1] == s[i]);
        assert(forall|j: int| 0 <= j < i - 1 ==> t[j] == s[j + 1]);
        lemma_stored_update(t, i - 1, r2);
        assert(!rec_matches(s2[0], s[i].slot, s[i].key));
        assert(stored(s2, s[i].slot, s[i].key) == stored(t2, s[i].slot, s[i].key));
        assert forall|slot2: u64, key2: Seq<u8>|
            !(slot2 == s[i].slot && key2 == s[i].key) implies stored(s2, slot2, key2) == stored(
            s,
            slot2,
            key2,
        ) by {
            assert(stored(t2, slot2, key2) == stored(t, slot2, key2));
            if rec_matches(s[0], slot2, key2) {
                assert(stored(s2, slot2, key2) == Some(s[0].value));
                assert(stored(s, slot2, key2) == Some(s[0].value));
            } else {
                assert(stored(s2, slot2, key2) == stored(t2, slot2, key2));
                assert(stored(s, slot2, key2) == stored(t, slot2, key2));
            }
        }
    }
}

/// Appending a record for an absent slot and key adds that lookup alone.
pub proof fn lemma_stored_push(s: Seq<RecImage>, r: RecImage)
    requires
        stored(s, r.slot, r.key) is None,
    ensures
        stored(s.push(r), r.slot, r.key) == Some(r.value),
        forall|slot2: u64, key2: Seq<u8>|
            !(slot2 == r.slot && key2 == r.key) ==> stored(s.push(r), slot2, key2) == stored(
                s,
                slot2,
                key2,
            ),
    decreases s.len(),
{
    let s2 = s.push(r);
    if s.len() == 0 {
        assert(s2[0] == r);
        assert(s2.subrange(1, 1) =~= Seq::<RecImage>::empty());
        assert forall|slot2: u64, key2: Seq<u8>|
            !(slot2 == r.slot && key2 == r.key) implies stored(s2, slot2, key2) == stored(
            s,
            slot2,
            key2,
        ) by {
            if !rec_matches(s2[0], slot2, key2) {
                assert(stored(s2.subrange(1, 1), slot2, key2) is None);
            }
        }
    } else {
        let t = s.subrange(1, s.len() as int);
        assert(s2[0] == s[0]);
        assert(s2.subrange(1, s2.len() as int) =~= t.push(r));
        assert(!rec_matches(s[0], r.slot, r.key));
        lemma_stored_push(t, r);
        assert(stored(s2, r.slot, r.key) == stored(t.push(r), r.slot, r.key));
        assert forall|slot2: u64, key2: Seq<u8>|
            !(slot2 == r.slot && key2 == r.key) implies stored(s2, slot2, key2) == stored(
            s,
            slot2,
            key2,
        ) by {
            assert(stored(t.push(r), slot2, key2) == stored(t, slot2, key2));
            if rec_matches(s[0], slot2, key2) {
                assert(stored(s2, slot2, key2) == Some(s[0].value));
                assert(stored(s, slot2, key2) == Some(s[0].value));
            } else {
                assert(stored(s2, slot2, key2) == stored(t.push(r), slot2, key2));
                assert(stored(s, slot2, key2) == stored(t, slot2, key2));
            }
        }
    }
}

/// Removing the only record that answers to its own slot and key erases
/// that lookup alone.
pub proof fn lemma_stored_remove(s: Seq<RecImage>, i: int)
    requires
        0 <= i < s.len(),
        forall|j: int| 0 <= j < s.len() && j != i ==> !rec_matches(s[j], s[i].slot, s[i].key),
    ensures
        stored(s.remove(i), s[i].slot, s[i].key) is None,
        forall|slot2: u64, key2: Seq<u8>|
            !(slot2 == s[i].slot && key2 == s[i].key) ==> stored(s.remove(i), slot2, key2)
                == stored(s, slot2, key2),
    decreases i,
{
    let s2 = s.remove(i);
    if i == 0 {
        assert(s2 =~= s.subrange(1, s.len() as int));
        assert(forall|j: int| 0 <= j < s2.len() ==> s2[j] == s[j + 1]);
        lemma_stored_none(s2, s[0].slot, s[0].key);
        assert forall|slot2: u64, key2: Seq<u8>|
            !(slot2 == s[0].slot && key2 == s[0].key) implies stored(s2, slot2, key2) == stored(
            s,
            slot2,
            key2,
        ) by {
            assert(!rec_matches(s[0], slot2, key2));
            assert(stored(s, slot2, key2) == stored(s.subrange(1, s.len() as int), slot2, key2));
        }
    } else {
        let t = s.subrange(1, s.len() as int);
        let t2 = s2.subrange(1, s2.len() as int);
        assert(s2[0] == s[0]);
        assert(t2 =~= t.remove(i - 1));
        assert(t[i - 1] == s[i]);
        assert(forall|j: int| 0 <= j < t.len() ==> t[j] == s[j + 1]);
        lemma_stored_remove(t, i - 1);
        assert(!rec_matches(s2[0], s[i].slot, s[i].key));
        assert(stored(s2, s[i].slot, s[i].key) == stored(t2, s[i].slot, s[i].key));
        assert forall|slot2: u64, key2: Seq<u8>|
            !(slot2 == s[i].slot && key2 == s[i].key) implies stored(s2, slot2, key2) == stored(
            s,
            slot2,
            key2,
        ) by {
            assert(stored(t2, slot2, key2) == stored(t, slot2, key2));
            if rec_matches(s[0], slot2, key2) {
                assert(stored(s2, slot2, key2) == Some(s[0].value));
                assert(stored(s, slot2, key2) == Some(s[0].value));
            } else {
                assert(stored(s2, slot2, key2) == stored(t2, slot2, key2));
                assert(stored(s, slot2, key2) == stored(t, slot2, key2));
            }
        }
    }
}

/// Removing a record lowers the number of catalog records exactly when the
/// record was a catalog record.
pub proof fn lemma_count_remove(s: Seq<RecImage>, i: int)
    requires
        0 <= i < s.len(),
    ensures
        catalog_count(s) == catalog_count(s.remove(i)) + (if s[i].slot == 0 {
            1nat
        } else {
            0nat
        }),
    decreases i,
{
    let s2 = s.remove(i);
    if i == 0 {
        assert(s2 =~= s.subrange(1, s.len() as int));
    } else {
        let t = s.subrange(1, s.len() as int);
        assert(s2[0] == s[0]);
        assert(s2.subrange(1, s2.len() as int) =~= t.remove(i - 1));
        assert(t[i - 1] == s[i]);
        lemma_count_remove(t, i - 1);
        assert(catalog_count(s2) == (if s[0].slot == 0 {
            1nat
        } else {
            0nat
        }) + catalog_count(t.remove(i - 1)));
        assert(catalog_count(s) == (if s[0].slot == 0 {
            1nat
        } else {
            0nat
        }) + catalog_count(t));
    }
}

/// A key-preserving replacement keeps the number of catalog records.
pub proof fn lemma_count_update(s: Seq<RecImage>, i: int, r2: RecImage)
    requires
        0 <= i < s.len(),
        r2.slot == s[i].slot,
    ensures
        catalog_count(s.update(i, r2)) == catalog_count(s),
    decreases i,
{
    let s2 = s.update(i, r2);
    if i == 0 {
        assert(s2.subrange(1, s2.len() as int) =~= s.subrange(1, s.len() as int));
    } else {
        let t = s.subrange(1, s.len() as int);
        assert(s2[0] == s[0]);
        assert(s2.subrange(1, s2.len() as int) =~= t.update(i - 1, r2));
        lemma_count_update(t, i - 1, r2);
    }
}

/// Appending a record raises the number of catalog records exactly when the
/// record is a catalog record.
pub proof fn lemma_count_push(s: Seq<RecImage>, r: RecImage)
    ensures
        catalog_count(s.push(r)) == catalog_count(s) + (if r.slot == 0 {
            1nat
        } else {
            0nat
        }),
    decreases s.len(),
{
    let s2 = s.push(r);
    if s.len() == 0 {
        assert(s2.subrange(1, 1) =~= Seq::<RecImage>::empty());
        assert(s2[0] == r);
        assert(catalog_count(s2.subrange(1, 1)) == 0);
    } else {
        let t = s.subrange(1, s.len() as int);
        assert(s2[0] == s[0]);
        assert(s2.subrange(1, s2.len() as int) =~= t.push(r));
        lemma_count_push(t, r);
        assert(catalog_count(s2) == (if s[0].slot == 0 {
            1nat
        } else {
            0nat
        }) + catalog_count(t.push(r)));
        assert(catalog_count(s) == (if s[0].slot == 0 {
            1nat
        } else {
            0nat
        }) + catalog_count(t));
    }
}

/// Stepping a catalog count past one record.
pub proof fn lemma_count_step(s: Seq<RecImage>, i: int)
    requires
        0 <= i < s.len(),
    ensures
        catalog_count(s.subrange(i, s.len() as int)) == (if s[i].slot == 0 {
            1nat
        } else {
            0nat
        }) + catalog_count(s.subrange(i + 1, s.len() as int)),
{
    let t = s.subrange(i, s.len() as int);
    assert(t[0] == s[i]);
    assert(t.subrange(1, t.len() as int) =~= s.subrange(i + 1, s.len() as int));
}

/// Whether two byte vectors hold the same bytes.
pub fn bytes_eq(a: &Vec<u8>, b: &Vec<u8>) -> (r: bool)
    ensures
        r == (a@ == b@),
{
    if a.len() != b.len() {
        return false;
    }
    let mut i: usize = 0;
    while i < a.len()
        invariant
            i <= a.len(),
            a@.len() == b@.len(),
            forall|j: int| 0 <= j < i ==> a@[j] == b@[j],
        decreases a.len() - i,
    {
        if a[i] != b[i] {
            return false;
        }
        i += 1;
    }
    proof {
        assert(a@ =~= b@);
    }
    true
}

/// A fresh copy of a byte vector.
pub fn copy_bytes(v: &Vec<u8>) -> (r: Vec<u8>)
    ensures
        r@ == v@,
{
    let mut out: Vec<u8> = Vec::new();
    let mut i: usize = 0;
    while i < v.len()
        invariant
            i <= v.len(),
            out@.len() == i,
            forall|j: int| 0 <= j < i ==> out@[j] == v@[j],
        decreases v.len() - i,
    {
        out.push(v[i]);
        i += 1;
    }
    proof {
        assert(out@ =~= v@);
    }
    out
}

/// A fresh copy of a record vector, equal record for record.
pub fn copy_records(v: &Vec<Record>) -> (r: Vec<Record>)
    ensures
        recs(r@) == recs(v@),
{
    let mut out: Vec<Record> = Vec::new();
    let mut i: usize = 0;
    while i < v.len()
        invariant
            i <= v@.len(),
            out@.len() == i,
            forall|j: int| 0 <= j < i ==> recs(out@)[j] == recs(v@)[j],
        decreases v.len() - i,
    {
        let rec = Record {
            slot: v[i].slot,
            key: copy_bytes(&v[i].key),
            value: copy_bytes(&v[i].value),
        };
        out.push(rec);
        i += 1;
    }
    proof {
        assert(recs(out@) =~= recs(v@));
    }
    out
}

/// The index of the first record under a slot and key, if any.
pub fn store_find(records: &Vec<Record>, slot: u64, key: &Vec<u8>) -> (r: Option<usize>)
    ensures
        match r {
            Some(i) => {
                &&& i < records@.len()
                &&& rec_matches(recs(records@)[i as int], slot, key@)
                &&& forall|j: int| 0 <= j < i ==> !rec_matches(recs(records@)[j], slot, key@)
                &&& stored(recs(records@), slot, key@) == Some(recs(records@)[i as int].value)
            },
            None => stored(recs(records@), slot, key@) is None,
        },
{
    let ghost rv = recs(records@);
    let mut i: usize = 0;
    while i < records.len()
        invariant
            i <= records@.len(),
            rv == recs(records@),
            rv.len() == records@.len(),
            forall|j: int| 0 <= j < i ==> !rec_matches(rv[j], slot, key@),
        decreases records.len() - i,
    {
        let matches_here = records[i].slot == slot && bytes_eq(&records[i].key, key);
        if matches_here {
            proof {
                lemma_stored_first(rv, i as int, slot, key@);
            }
            return Some(i);
        }
        i += 1;
    }
    proof {
        lemma_stored_none(rv, slot, key@);
    }
    None
}

/// Writes a value under a slot and key: replaces the first matching record,
/// or appends a new one when the pair is absent.
pub fn store_put(records: &mut Vec<Record>, slot: u64, key: Vec<u8>, value: Vec<u8>)
    ensures
        stored(recs(final(records)@), slot, key@) == Some(value@),
        forall|slot2: u64, key2: Seq<u8>|
            !(slot2 == slot && key2 == key@) ==> stored(recs(final(records)@), slot2, key2)
                == stored(recs(old(records)@), slot2, key2),
        catalog_count(recs(final(records)@)) == catalog_count(recs(old(records)@)) + (if stored(
            recs(old(records)@),
            slot,
            key@,
        ) is None && slot == 0 {
            1nat
        } else {
            0nat
        }),
        ({
            let o = recs(old(records)@);
            let n = recs(final(records)@);
            let r = (RecImage { slot, key: key@, value: value@ });
            if stored(o, slot, key@) is Some {
                exists|i: int|
                    0 <= i < o.len() && rec_matches(o[i], slot, key@) && n == o.update(i, r)
            } else {
                n == o.push(r)
            }
        }),
        unique_keys(recs(old(records)@)) ==> unique_keys(recs(final(records)@)),
{
    let ghost o = recs(records@);
    let ghost r_img = RecImage { slot, key: key@, value: value@ };
    match store_find(records, slot, &key) {
        Some(i) => {
            let rec = Record { slot, key, value };
            records[i] = rec;
            proof {
                let n = recs(records@);
                assert(n =~= o.update(i as int, r_img));
                lemma_stored_update(o, i as int, r_img);
                lemma_count_update(o, i as int, r_img);
                if unique_keys(o) {
                    assert forall|a: int, b: int|
                        0 <= a < b < n.len() implies !(n[a].slot == n[b].slot && n[a].key
                        == n[b].key) by {
                        assert(n[a].slot == o[a].slot && n[a].key == o[a].key);
                        assert(n[b].slot == o[b].slot && n[b].key == o[b].key);
                    }
                }
            }
        },
        None => {
            let rec = Record { slot, key, value };
            records.push(rec);
            proof {
                let n = recs(records@);
                assert(n =~= o.push(r_img));
                lemma_stored_push(o, r_img);
                lemma_count_push(o, r_img);
                lemma_stored_none_inv(o, slot, r_img.key);
                if unique_keys(o) {
                    assert forall|a: int, b: int|
                        0 <= a < b < n.len() implies !(n[a].slot == n[b].slot && n[a].key
                        == n[b].key) by {
                        if b < o.len() {
                            assert(n[a] == o[a] && n[b] == o[b]);
                        } else {
                            assert(n[a] == o[a] && n[b] == r_img);
                        }
                    }
                }
            }
        },
    }
}

/// Removes the record under a slot and key, if one is there, and says
/// whether one was.  Asks for unique keys so that removing the one match
/// erases the lookup.
pub fn store_delete(records: &mut Vec<Record>, slot: u64, key: &Vec<u8>) -> (r: bool)
    requires
        unique_keys(recs(old(records)@)),
    ensures
        r == (stored(recs(old(records)@), slot, key@) is Some),
        stored(recs(final(records)@), slot, key@) is None,
        forall|slot2: u64, key2: Seq<u8>|
            !(slot2 == slot && key2 == key@) ==> stored(recs(final(records)@), slot2, key2)
                == stored(recs(old(records)@), slot2, key2),
        catalog_count(recs(old(records)@)) == catalog_count(recs(final(records)@)) + (if stored(
            recs(old(records)@),
            slot,
            key@,
        ) is Some && slot == 0 {
            1nat
        } else {
            0nat
        }),
        ({
            let o = recs(old(records)@);
            let n = recs(final(records)@);
            if stored(o, slot, key@) is Some {
                exists|i: int| 0 <= i < o.len() && rec_matches(o[i], slot, key@) && n == o.remove(i)
            } else {
                n == o
            }
        }),
        unique_keys(recs(final(records)@)),
{
    let ghost o = recs(records@);
    match store_find(records, slot, key) {
        Some(i) => {
            records.remove(i);
            proof {
                let n = recs(records@);
                assert(n =~= o.remove(i as int));
                assert forall|j: int|
                    0 <= j < o.len() && j != i implies !rec_matches(o[j], slot, key@) by {
                    if j > i {
                        assert(!(o[i as int].slot == o[j].slot && o[i as int].key == o[j].key));
                    }
                }
                lemma_stored_remove(o, i as int);
                lemma_count_remove(o, i as int);
                assert forall|a: int, b: int|
                    0 <= a < b < n.len() implies !(n[a].slot == n[b].slot && n[a].key
                    == n[b].key) by {
                    let a0: int = if a < i {
                        a
                    } else {
                        a + 1
                    };
                    let b0: int = if b < i {
                        b
                    } else {
                        b + 1
                    };
                    assert(n[a] == o[a0] && n[b] == o[b0]);
                    assert(!(o[a0].slot == o[b0].slot && o[a0].key == o[b0].key));
                }
            }
            true
        },
        None => false,
    }
}

/// Counts the catalog records of a store.
pub fn count_catalog(records: &Vec<Record>) -> (r: usize)
    ensures
        r == catalog_count(recs(records@)),
{
    let ghost rv = recs(records@);
    let mut i: usize = 0;
    let mut c: usize = 0;
    proof {
        assert(rv.subrange(0, rv.len() as int) =~= rv);
    }
    while i < records.len()
        invariant
            i <= records@.len(),
            c <= i,
            rv == recs(records@),
            rv.len() == records@.len(),
            catalog_count(rv) == c + catalog_count(rv.subrange(i as int, rv.len() as int)),
        decreases records.len() - i,
    {
        proof {
            lemma_count_step(rv, i as int);
        }
        if records[i].slot == 0 {
            c += 1;
        }
        i += 1;
    }
    proof {
        assert(rv.subrange(rv.len() as int, rv.len() as int) =~= Seq::<RecImage>::empty());
    }
    c
}

} // verus!
