//! The append-only log: records one after another, in the order in which
//! they were written, with nothing before, between or after them.

use vstd::prelude::*;
use crate::codec::{decode_record, lemma_record_round_trip, record_at, record_bytes, record_len};
use crate::data::{KeyAtRevision, KeyValueRevisionPersistence, ValueEntry, ValueWithPrevRevRef};

verus! {

/// The records that a log holds, first written first, or `None` where the
/// log is not a run of whole records.
pub open spec fn replay(log: Seq<u8>) -> Option<Seq<KeyValueRevisionPersistence>>
    decreases log.len(),
{
    if log.len() == 0 {
        Some(Seq::empty())
    } else {
        match record_at(log) {
            None => None,
            Some(record) => match replay(log.skip(record_len(record) as int)) {
                None => None,
                Some(later) => Some(seq![record] + later),
            },
        }
    }
}

/// The bytes of a run of records.
pub open spec fn log_bytes(records: Seq<KeyValueRevisionPersistence>) -> Seq<u8>
    decreases records.len(),
{
    if records.len() == 0 {
        Seq::empty()
    } else {
        log_bytes(records.drop_last()) + record_bytes(records.last())
    }
}

/// The current index that a run of records leaves: for each key its entry
/// in the last record written for it.
pub open spec fn current_index(records: Seq<KeyValueRevisionPersistence>) -> Map<u128, ValueEntry>
    decreases records.len(),
{
    if records.len() == 0 {
        Map::empty()
    } else {
        current_index(records.drop_last()).insert(records.last().key, records.last().value_entry)
    }
}

/// Where the historical index files a record: under its key at its revision.
pub open spec fn historical_key(record: KeyValueRevisionPersistence) -> KeyAtRevision {
    KeyAtRevision { key: record.key, revision: record.value_entry.revision }
}

/// What the historical index files for an entry: the entry without its
/// revision.
pub open spec fn historical_value(entry: ValueEntry) -> ValueWithPrevRevRef {
    ValueWithPrevRevRef { prev_rev: entry.prev_rev, value: entry.value }
}

/// The historical index that a run of records leaves: every record under
/// its key and revision, the current ones too. Of two records with one key
/// and one revision the later stays.
pub open spec fn full_history(records: Seq<KeyValueRevisionPersistence>) -> Map<
    KeyAtRevision,
    ValueWithPrevRevRef,
>
    decreases records.len(),
{
    if records.len() == 0 {
        Map::empty()
    } else {
        full_history(records.drop_last()).insert(
            historical_key(records.last()),
            historical_value(records.last().value_entry),
        )
    }
}

/// `later` put behind `earlier`, where there is a `later`.
pub open spec fn records_then(
    earlier: Seq<KeyValueRevisionPersistence>,
    later: Option<Seq<KeyValueRevisionPersistence>>,
) -> Option<Seq<KeyValueRevisionPersistence>> {
    match later {
        None => None,
        Some(later) => Some(earlier + later),
    }
}

/// Decodes a whole log, record by record, until nothing is left of it.
///
/// Any record that cannot be decoded fails the whole log: a cut or damaged
/// tail is not skipped.
pub fn read_log(
    log: &[u8],
) -> (records: Result<Vec<KeyValueRevisionPersistence>, Box<bincode::ErrorKind>>)
    ensures
        records is Ok <==> replay(log@) is Some,
        records matches Ok(found) ==> replay(log@) == Some(found@),
{
    let mut data: Vec<KeyValueRevisionPersistence> = Vec::new();
    let mut cursor = log;
    while cursor.len() > 0
        invariant
            replay(log@) == records_then(data@, replay(cursor@)),
        decreases cursor@.len(),
    {
        match decode_record(cursor) {
            Ok((record, rest)) => {
                proof {
                    let later = replay(rest@);
                    if later is Some {
                        assert(data@.push(record) + later.unwrap() == data@ + (seq![record]
                            + later.unwrap()));
                    }
                }
                data.push(record);
                cursor = rest;
            },
            Err(e) => {
                return Err(e);
            },
        }
    }
    proof {
        assert(data@ + Seq::empty() == data@);
    }
    Ok(data)
}

/// Replaying a log that was extended by one record gives the records of the
/// log and then that record.
pub proof fn lemma_replay_appended(log: Seq<u8>, record: KeyValueRevisionPersistence)
    requires
        replay(log) is Some,
    ensures
        replay(log + record_bytes(record)) == Some(replay(log).unwrap().push(record)),
    decreases log.len(),
{
    let added = record_bytes(record);
    lemma_record_round_trip(record, Seq::empty());
    if log.len() == 0 {
        assert(log + added == added + Seq::<u8>::empty());
        assert(replay(Seq::<u8>::empty()) == Some(Seq::<KeyValueRevisionPersistence>::empty()));
        assert(seq![record] + Seq::empty() == Seq::<KeyValueRevisionPersistence>::empty().push(
            record,
        ));
    } else {
        let first = record_at(log).unwrap();
        let n = record_len(first) as int;
        let whole = log + added;
        assert(whole.subrange(0, 16) == log.subrange(0, 16));
        assert(whole.subrange(16, 32) == log.subrange(16, 32));
        if first.value_entry.prev_rev is None {
            assert(whole.subrange(33, 37) == log.subrange(33, 37));
        } else {
            assert(whole.subrange(33, 49) == log.subrange(33, 49));
            assert(whole.subrange(49, 53) == log.subrange(49, 53));
        }
        assert(record_at(whole) == Some(first));
        assert(whole.skip(n) == log.skip(n) + added);
        lemma_replay_appended(log.skip(n), record);
        let later = replay(log.skip(n)).unwrap();
        assert(seq![first] + later.push(record) == (seq![first] + later).push(record));
    }
}

/// A log that was written record by record replays to those records.
pub proof fn lemma_written_log_replays(records: Seq<KeyValueRevisionPersistence>)
    ensures
        replay(log_bytes(records)) == Some(records),
    decreases records.len(),
{
    if records.len() > 0 {
        lemma_written_log_replays(records.drop_last());
        lemma_replay_appended(log_bytes(records.drop_last()), records.last());
        assert(records.drop_last().push(records.last()) == records);
    }
}

/// Whether the record at `i` is the last that `records` hold for `key`.
pub open spec fn is_last_for(records: Seq<KeyValueRevisionPersistence>, key: u128, i: int) -> bool {
    &&& 0 <= i < records.len()
    &&& records[i].key == key
    &&& forall|j: int| i < j < records.len() ==> (#[trigger] records[j]).key != key
}

/// The last record written for a key is its current entry, and the index
/// holds no key for which nothing was written.
pub proof fn lemma_last_record_wins(records: Seq<KeyValueRevisionPersistence>, key: u128)
    ensures
        current_index(records).contains_key(key) <==> exists|i: int|
            0 <= i < records.len() && (#[trigger] records[i]).key == key,
        forall|i: int| #[trigger]
            is_last_for(records, key, i) ==> current_index(records)[key] == records[i].value_entry,
    decreases records.len(),
{
    if records.len() > 0 {
        let earlier = records.drop_last();
        lemma_last_record_wins(earlier, key);
        if records.last().key == key {
            assert(records[records.len() - 1].key == key);
        } else {
            assert forall|i: int| #[trigger] is_last_for(records, key, i) implies is_last_for(
                earlier,
                key,
                i,
            ) by {
                assert forall|j: int| i < j < earlier.len() implies (#[trigger] earlier[j]).key
                    != key by {
                    assert(earlier[j] == records[j]);
                }
            }
            if current_index(records).contains_key(key) {
                let i = choose|i: int| 0 <= i < earlier.len() && (#[trigger] earlier[i]).key == key;
                assert(records[i] == earlier[i]);
            }
        }
        assert forall|i: int|
            0 <= i < records.len() && (#[trigger] records[i]).key == key implies current_index(
            records,
        ).contains_key(key) by {
            if i < earlier.len() {
                assert(earlier[i] == records[i]);
            }
        }
    }
}

/// The full history holds every record of the log under its key and
/// revision, the superseded ones and the current ones.
pub proof fn lemma_history_holds_every_record(records: Seq<KeyValueRevisionPersistence>, i: int)
    requires
        0 <= i < records.len(),
    ensures
        full_history(records).contains_key(historical_key(records[i])),
        (forall|j: int|
            i < j < records.len() ==> historical_key(#[trigger] records[j]) != historical_key(
                records[i],
            )) ==> full_history(records)[historical_key(records[i])] == historical_value(
            records[i].value_entry,
        ),
    decreases records.len(),
{
    if i < records.len() - 1 {
        let earlier = records.drop_last();
        assert(earlier[i] == records[i]);
        lemma_history_holds_every_record(earlier, i);
        if forall|j: int|
            i < j < records.len() ==> historical_key(#[trigger] records[j]) != historical_key(
                records[i],
            ) {
            assert forall|j: int| i < j < earlier.len() implies historical_key(
                #[trigger] earlier[j],
            ) != historical_key(earlier[i]) by {
                assert(earlier[j] == records[j]);
            }
            assert(historical_key(records[records.len() - 1]) != historical_key(records[i]));
        }
    }
}

} // verus!
