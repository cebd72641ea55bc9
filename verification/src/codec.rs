//! The binary form of one log record.

use vstd::prelude::*;
use vstd::bytes::{
    spec_u128_from_le_bytes, spec_u128_to_le_bytes, spec_u32_from_le_bytes, spec_u32_to_le_bytes,
};
use crate::data::{KeyValueRevisionPersistence, Revision, ValueEntry};

verus! {

/// The bytes of the link to the replaced revision: a tag byte, 0 for no
/// link and 1 for a link, and after a 1 the revision.
pub open spec fn link_bytes(prev_rev: Option<Revision>) -> Seq<u8> {
    match prev_rev {
        None => seq![0u8],
        Some(rev) => seq![1u8] + spec_u128_to_le_bytes(rev.0),
    }
}

/// The bytes of a record: key, revision, link and value, each integer in
/// its full width with the lowest byte first, and nothing between them.
pub open spec fn record_bytes(record: KeyValueRevisionPersistence) -> Seq<u8> {
    spec_u128_to_le_bytes(record.key) + spec_u128_to_le_bytes(record.value_entry.revision.0)
        + link_bytes(record.value_entry.prev_rev) + spec_u32_to_le_bytes(record.value_entry.value)
}

/// How many bytes a record takes: 37 without a link, 53 with one.
pub open spec fn record_len(record: KeyValueRevisionPersistence) -> nat {
    match record.value_entry.prev_rev {
        None => 37,
        Some(_) => 53,
    }
}

/// Encodes one record.
///
/// Calls `bincode::serialize` on the record's fields in their order. With
/// the settings of that function every integer is written in its full width,
/// lowest byte first, an absent link as the byte 0 and a present one as the
/// byte 1 before the revision. There is no size limit and the bytes go to a
/// vector, so the call has no way to fail.
#[verifier::external_body]
pub(crate) fn encode_record(
    record: &KeyValueRevisionPersistence,
) -> (encoded: Result<Vec<u8>, Box<bincode::ErrorKind>>)
    ensures
        encoded is Ok,
        encoded matches Ok(bytes) ==> bytes@ == record_bytes(*record),
{
    let entry = &record.value_entry;
    bincode::serialize(&(record.key, entry.revision.0, entry.prev_rev.map(|r| r.0), entry.value))
}

/// The record that a buffer starts with, if it starts with one.
///
/// A buffer starts with a record when it holds key, revision and tag byte,
/// the tag is 0 or 1, and what the tag announces fits in what is left.
pub open spec fn record_at(buf: Seq<u8>) -> Option<KeyValueRevisionPersistence> {
    if buf.len() < 33 {
        None
    } else {
        let key = spec_u128_from_le_bytes(buf.subrange(0, 16));
        let revision = Revision(spec_u128_from_le_bytes(buf.subrange(16, 32)));
        if buf[32] == 0 && buf.len() >= 37 {
            let value = spec_u32_from_le_bytes(buf.subrange(33, 37));
            Some(
                KeyValueRevisionPersistence {
                    key,
                    value_entry: ValueEntry { revision, prev_rev: None, value },
                },
            )
        } else if buf[32] == 1 && buf.len() >= 53 {
            let prev_rev = Some(Revision(spec_u128_from_le_bytes(buf.subrange(33, 49))));
            let value = spec_u32_from_le_bytes(buf.subrange(49, 53));
            Some(
                KeyValueRevisionPersistence {
                    key,
                    value_entry: ValueEntry { revision, prev_rev, value },
                },
            )
        } else {
            None
        }
    }
}

/// Decodes the record at the front of a buffer and hands back what follows it.
///
/// Calls `bincode::deserialize_from` on a cursor over the buffer. It reads
/// the fields in the order in which `encode_record` writes them, takes
/// exactly the bytes of one record from the cursor, and fails when the
/// buffer ends inside a field or the tag byte is neither 0 nor 1.
#[verifier::external_body]
pub(crate) fn decode_record<'a>(
    buf: &'a [u8],
) -> (decoded: Result<(KeyValueRevisionPersistence, &'a [u8]), Box<bincode::ErrorKind>>)
    ensures
        decoded is Ok <==> record_at(buf@) is Some,
        decoded matches Ok((record, rest)) ==> record_at(buf@) == Some(record) && rest@
            == buf@.skip(record_len(record) as int),
{
    let mut cursor = buf;
    let (key, revision, prev_rev, value): (u128, u128, Option<u128>, u32) =
        bincode::deserialize_from(&mut cursor)?;
    let (revision, prev_rev) = (Revision(revision), prev_rev.map(Revision));
    let value_entry = ValueEntry { revision, prev_rev, value };
    Ok((KeyValueRevisionPersistence { key, value_entry }, cursor))
}

/// A record that is written and read back comes back unchanged, whatever
/// follows it in the buffer, and its length is that of its bytes.
pub proof fn lemma_record_round_trip(record: KeyValueRevisionPersistence, rest: Seq<u8>)
    ensures
        record_bytes(record).len() == record_len(record),
        record_at(record_bytes(record) + rest) == Some(record),
        (record_bytes(record) + rest).skip(record_len(record) as int) == rest,
{
    vstd::bytes::lemma_auto_spec_u128_to_from_le_bytes();
    vstd::bytes::lemma_auto_spec_u32_to_from_le_bytes();
    let key = spec_u128_to_le_bytes(record.key);
    let revision = spec_u128_to_le_bytes(record.value_entry.revision.0);
    let value = spec_u32_to_le_bytes(record.value_entry.value);
    let buf = record_bytes(record) + rest;
    assert(buf.subrange(0, 16) == key);
    assert(buf.subrange(16, 32) == revision);
    match record.value_entry.prev_rev {
        None => {
            assert(buf[32] == 0);
            assert(buf.subrange(33, 37) == value);
        },
        Some(prev) => {
            assert(buf[32] == 1);
            assert(buf.subrange(33, 49) == spec_u128_to_le_bytes(prev.0));
            assert(buf.subrange(49, 53) == value);
        },
    }
    assert(buf.skip(record_len(record) as int) == rest);
}

} // verus!
