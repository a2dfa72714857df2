//! The catalog record layout.
//!
//! A catalog entry maps a database name to its slot and persisted flags.  The
//! name is the record's key; the record's value is fourteen bytes: the slot
//! as eight little-endian bytes, then one byte per persisted flag, each `0`
//! or `1`.  This layout is the only wire format the subsystem introduces.

use vstd::prelude::*;

use crate::flags::DbFlags;

verus! {

/// Little-endian byte image of a slot number.
pub open spec fn le_bytes(x: u64) -> Seq<u8> {
    seq![
        (x & 0xff) as u8,
        ((x >> 8) & 0xff) as u8,
        ((x >> 16) & 0xff) as u8,
        ((x >> 24) & 0xff) as u8,
        ((x >> 32) & 0xff) as u8,
        ((x >> 40) & 0xff) as u8,
        ((x >> 48) & 0xff) as u8,
        ((x >> 56) & 0xff) as u8,
    ]
}

/// The slot number read back from eight little-endian bytes.
pub open spec fn le_value(s: Seq<u8>) -> u64
    recommends
        s.len() == 8,
{
    ((s[0] as u64) | ((s[1] as u64) << 8) | ((s[2] as u64) << 16) | ((s[3] as u64) << 24)
        | ((s[4] as u64) << 32) | ((s[5] as u64) << 40) | ((s[6] as u64) << 48)
        | ((s[7] as u64) << 56)) as u64
}

/// Reading the little-endian image of a slot gives the slot back.
pub proof fn lemma_le_round_trip(x: u64)
    ensures
        le_value(le_bytes(x)) == x,
{
    let b0 = (x & 0xff) as u8;
    let b1 = ((x >> 8) & 0xff) as u8;
    let b2 = ((x >> 16) & 0xff) as u8;
    let b3 = ((x >> 24) & 0xff) as u8;
    let b4 = ((x >> 32) & 0xff) as u8;
    let b5 = ((x >> 40) & 0xff) as u8;
    let b6 = ((x >> 48) & 0xff) as u8;
    let b7 = ((x >> 56) & 0xff) as u8;
    assert(((b0 as u64) | ((b1 as u64) << 8) | ((b2 as u64) << 16) | ((b3 as u64) << 24)
        | ((b4 as u64) << 32) | ((b5 as u64) << 40) | ((b6 as u64) << 48) | ((b7 as u64) << 56))
        == x) by (bit_vector)
        requires
            b0 == (x & 0xff) as u8,
            b1 == ((x >> 8) & 0xff) as u8,
            b2 == ((x >> 16) & 0xff) as u8,
            b3 == ((x >> 24) & 0xff) as u8,
            b4 == ((x >> 32) & 0xff) as u8,
            b5 == ((x >> 40) & 0xff) as u8,
            b6 == ((x >> 48) & 0xff) as u8,
            b7 == ((x >> 56) & 0xff) as u8,
    ;
}

/// The byte image of one flag.
pub open spec fn flag_byte(b: bool) -> u8 {
    if b {
        1
    } else {
        0
    }
}

/// The six persisted flags, one byte each.
pub open spec fn flag_bytes(f: DbFlags) -> Seq<u8> {
    seq![
        flag_byte(f.reverse_key),
        flag_byte(f.dup_sort),
        flag_byte(f.integer_key),
        flag_byte(f.dup_fixed),
        flag_byte(f.integer_dup),
        flag_byte(f.reverse_dup),
    ]
}

/// Whether six bytes are a well-formed flag image: each byte `0` or `1`.
pub open spec fn valid_flag_bytes(s: Seq<u8>) -> bool {
    s.len() == 6 && (forall|i: int| 0 <= i < 6 ==> s[i] <= 1)
}

/// The flag set read back from a six-byte flag image; `create` is never
/// persisted and always comes back clear.
pub open spec fn flags_from_bytes(s: Seq<u8>) -> DbFlags
    recommends
        s.len() == 6,
{
    DbFlags {
        create: false,
        reverse_key: s[0] == 1,
        dup_sort: s[1] == 1,
        integer_key: s[2] == 1,
        dup_fixed: s[3] == 1,
        integer_dup: s[4] == 1,
        reverse_dup: s[5] == 1,
    }
}

/// The value of a catalog record: slot, then persisted flags.
pub open spec fn entry_bytes(slot: u64, f: DbFlags) -> Seq<u8> {
    le_bytes(slot) + flag_bytes(f)
}

/// What a catalog record's value means, if it is well formed.
pub open spec fn parse_entry(s: Seq<u8>) -> Option<(u64, DbFlags)> {
    if s.len() == 14 && valid_flag_bytes(s.subrange(8, 14)) {
        Some((le_value(s.subrange(0, 8)), flags_from_bytes(s.subrange(8, 14))))
    } else {
        None
    }
}

/// Parsing the image of an entry gives the slot and the persisted flags back.
pub proof fn lemma_entry_round_trip(slot: u64, f: DbFlags)
    ensures
        parse_entry(entry_bytes(slot, f)) == Some((slot, f.persisted_spec())),
{
    let e = entry_bytes(slot, f);
    assert(e.subrange(0, 8) =~= le_bytes(slot));
    assert(e.subrange(8, 14) =~= flag_bytes(f));
    lemma_le_round_trip(slot);
    assert(flags_from_bytes(flag_bytes(f)) == f.persisted_spec());
}

/// Builds the value bytes of a catalog record.
pub fn encode_entry(slot: u64, f: &DbFlags) -> (r: Vec<u8>)
    ensures
        r@ == entry_bytes(slot, *f),
{
    let mut out: Vec<u8> = Vec::new();
    out.push((slot & 0xff) as u8);
    out.push(((slot >> 8) & 0xff) as u8);
    out.push(((slot >> 16) & 0xff) as u8);
    out.push(((slot >> 24) & 0xff) as u8);
    out.push(((slot >> 32) & 0xff) as u8);
    out.push(((slot >> 40) & 0xff) as u8);
    out.push(((slot >> 48) & 0xff) as u8);
    out.push(((slot >> 56) & 0xff) as u8);
    out.push(if f.reverse_key { 1 } else { 0 });
    out.push(if f.dup_sort { 1 } else { 0 });
    out.push(if f.integer_key { 1 } else { 0 });
    out.push(if f.dup_fixed { 1 } else { 0 });
    out.push(if f.integer_dup { 1 } else { 0 });
    out.push(if f.reverse_dup { 1 } else { 0 });
    proof {
        assert(out@ =~= entry_bytes(slot, *f));
    }
    out
}

/// Reads a catalog record's value back into a slot and flag set.
pub fn decode_entry(v: &Vec<u8>) -> (r: Option<(u64, DbFlags)>)
    ensures
        r == parse_entry(v@),
{
    if v.len() != 14 {
        return None;
    }
    let mut i: usize = 8;
    while i < 14
        invariant
            8 <= i <= 14,
            v@.len() == 14,
            forall|j: int| 8 <= j < i ==> v@[j] <= 1,
        decreases 14 - i,
    {
        if v[i] > 1 {
            proof {
                assert(v@.subrange(8, 14)[i - 8] == v@[i as int]);
            }
            return None;
        }
        i += 1;
    }
    let slot = (v[0] as u64) | ((v[1] as u64) << 8) | ((v[2] as u64) << 16)
        | ((v[3] as u64) << 24) | ((v[4] as u64) << 32) | ((v[5] as u64) << 40)
        | ((v[6] as u64) << 48) | ((v[7] as u64) << 56);
    let f = DbFlags {
        create: false,
        reverse_key: v[8] == 1,
        dup_sort: v[9] == 1,
        integer_key: v[10] == 1,
        dup_fixed: v[11] == 1,
        integer_dup: v[12] == 1,
        reverse_dup: v[13] == 1,
    };
    proof {
        let s = v@;
        assert(valid_flag_bytes(s.subrange(8, 14))) by {
            assert(forall|j: int| 0 <= j < 6 ==> s.subrange(8, 14)[j] == s[j + 8]);
        }
        assert(le_value(s.subrange(0, 8)) == slot);
        assert(flags_from_bytes(s.subrange(8, 14)) == f);
    }
    Some((slot, f))
}

} // verus!
