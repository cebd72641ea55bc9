//! An embedded key-value store that keeps, for every key, its current value
//! and the chain of revisions that led to it.
//!
//! The store lives in memory and is backed by an append-only log of records.
//! The log is replayed in full when a store is opened; every accepted write
//! yields the bytes that extend the log by one record.

pub mod codec;
pub mod data;
pub mod error;
pub mod log;
pub mod magic;
pub mod model;
pub mod order;

use std::collections::BTreeMap;
use vstd::prelude::*;
use vstd::std_specs::iter::IteratorSpec;
use crate::codec::{encode_record, record_bytes};
use crate::data::{
    KeyAtRevision, KeyValueRevisionPersistence, Revision, ValueEntry, ValueWithPrevRevRef,
};
use crate::error::{KVRInitializationError, KVRInsertionError, KVRUpdateError};
use crate::log::{
    current_index, full_history, historical_key, historical_value, read_log, replay,
};
use crate::order::lemma_increasing_keys_ascend;
use crate::model::StoreState;

verus! {

/// One end of a range of keys.
#[derive(Clone, Copy, Debug, PartialEq, Eq)]
pub enum KeyBound {
    /// The range reaches this key and holds it.
    Included(u128),
    /// The range reaches this key and leaves it out.
    Excluded(u128),
    /// The range has no end on this side.
    Unbounded,
}

impl KeyBound {
    /// Whether a key lies on the inner side of this bound, taken as the
    /// lower end of a range.
    pub open spec fn admits_from_below(self, key: u128) -> bool {
        match self {
            KeyBound::Included(low) => low <= key,
            KeyBound::Excluded(low) => low < key,
            KeyBound::Unbounded => true,
        }
    }

    /// Whether a key lies on the inner side of this bound, taken as the
    /// upper end of a range.
    pub open spec fn admits_from_above(self, key: u128) -> bool {
        match self {
            KeyBound::Included(high) => key <= high,
            KeyBound::Excluded(high) => key < high,
            KeyBound::Unbounded => true,
        }
    }

    fn is_at_or_below(&self, key: u128) -> (admitted: bool)
        ensures
            admitted == self.admits_from_below(key),
    {
        match self {
            KeyBound::Included(low) => *low <= key,
            KeyBound::Excluded(low) => *low < key,
            KeyBound::Unbounded => true,
        }
    }

    fn is_at_or_above(&self, key: u128) -> (admitted: bool)
        ensures
            admitted == self.admits_from_above(key),
    {
        match self {
            KeyBound::Included(high) => key <= *high,
            KeyBound::Excluded(high) => key < *high,
            KeyBound::Unbounded => true,
        }
    }
}

/// Whether a key lies between two bounds.
pub open spec fn in_range(start: KeyBound, end: KeyBound, key: u128) -> bool {
    start.admits_from_below(key) && end.admits_from_above(key)
}

/// An in-memory key-value store with revision history, rebuilt from an
/// append-only log.
pub struct KeyValueRevision {
    value_entry_by_key: BTreeMap<u128, ValueEntry>,
    is_keeping_historical_entries_in_memory: bool,
    historical_entries: BTreeMap<(u128, u128), ValueWithPrevRevRef>,
}

/// Whether `listed` holds the entries of `index`, each once, by ascending key.
spec fn lists_in_order<'a>(
    listed: Seq<(&'a u128, &'a ValueEntry)>,
    index: Map<u128, ValueEntry>,
) -> bool {
    &&& forall|i: int, j: int|
        0 <= i < j < listed.len() ==> *(#[trigger] listed[i]).0 < *(#[trigger] listed[j]).0
    &&& forall|i: int|
        0 <= i < listed.len() ==> {
            &&& index.contains_key(*(#[trigger] listed[i]).0)
            &&& index[*listed[i].0] == *listed[i].1
        }
    &&& forall|key: u128| #[trigger]
        index.contains_key(key) ==> exists|i: int|
            0 <= i < listed.len() && *(#[trigger] listed[i]).0 == key
}

/// The historical index as the store files it, under pairs of numbers, read
/// as a map from keys at revisions.
spec fn filed_history(filed: Map<(u128, u128), ValueWithPrevRevRef>) -> Map<
    KeyAtRevision,
    ValueWithPrevRevRef,
> {
    Map::new(
        |at: KeyAtRevision| filed.contains_key((at.key, at.revision.0)),
        |at: KeyAtRevision| filed[(at.key, at.revision.0)],
    )
}

/// Filing under a pair of numbers is filing under the key at the revision.
proof fn lemma_filed_history_insert(
    filed: Map<(u128, u128), ValueWithPrevRevRef>,
    at: KeyAtRevision,
    held: ValueWithPrevRevRef,
)
    ensures
        filed_history(filed.insert((at.key, at.revision.0), held)) == filed_history(filed).insert(
            at,
            held,
        ),
{
    assert(filed_history(filed.insert((at.key, at.revision.0), held)) =~= filed_history(
        filed,
    ).insert(at, held));
}

impl View for KeyValueRevision {
    type V = StoreState;

    closed spec fn view(&self) -> StoreState {
        StoreState {
            index: self.value_entry_by_key@,
            history: if self.is_keeping_historical_entries_in_memory {
                filed_history(self.historical_entries@)
            } else {
                Map::empty()
            },
            keeps_history: self.is_keeping_historical_entries_in_memory,
        }
    }
}

impl KeyValueRevision {
    /// Rebuilds a store from the whole content of its log.
    ///
    /// Later records win: the current index holds for each key the entry of
    /// the last record written for it. With `should_keep_historical_entries_in_memory`
    /// every record, superseded or current, also enters the historical index.
    /// A log that is not a run of whole records is refused.
    pub fn try_init(
        log: &[u8],
        should_keep_historical_entries_in_memory: bool,
    ) -> (store: Result<Self, KVRInitializationError>)
        ensures
            store is Ok <==> replay(log@) is Some,
            store matches Ok(opened) ==> opened@ == StoreState::recovered(
                replay(log@).unwrap(),
                should_keep_historical_entries_in_memory,
            ),
            store matches Err(e) ==> e is FailedToDeserializeValue,
    {
        let data = match read_log(log) {
            Ok(d) => d,
            Err(e) => {
                return Err(KVRInitializationError::FailedToDeserializeValue(e));
            },
        };
        let mut value_entry_by_key: BTreeMap<u128, ValueEntry> = BTreeMap::new();
        let mut historical_entries: BTreeMap<(u128, u128), ValueWithPrevRevRef> = BTreeMap::new();
        let mut i: usize = 0;
        while i < data.len()
            invariant
                i <= data.len(),
                value_entry_by_key@ == current_index(data@.take(i as int)),
                should_keep_historical_entries_in_memory ==> filed_history(historical_entries@)
                    == full_history(data@.take(i as int)),
            decreases data.len() - i,
        {
            let record = data[i];
            proof {
                assert(data@.take(i + 1).drop_last() == data@.take(i as int));
                assert(data@.take(i + 1).last() == record);
                lemma_filed_history_insert(
                    historical_entries@,
                    historical_key(record),
                    historical_value(record.value_entry),
                );
            }
            value_entry_by_key.insert(record.key, record.value_entry);
            if should_keep_historical_entries_in_memory {
                historical_entries.insert(
                    (record.key, record.value_entry.revision.0),
                    ValueWithPrevRevRef {
                        prev_rev: record.value_entry.prev_rev,
                        value: record.value_entry.value,
                    },
                );
            }
            i += 1;
        }
        let opened = KeyValueRevision {
            value_entry_by_key,
            is_keeping_historical_entries_in_memory: should_keep_historical_entries_in_memory,
            historical_entries,
        };
        proof {
            assert(data@.take(i as int) == data@);
        }
        Ok(opened)
    }

    /// Writes a key for the first time.
    ///
    /// A key that the store already holds is refused and the store stays as
    /// it is. Otherwise the entry enters the index and the bytes of its
    /// record are handed back: appended to the log, they make the write
    /// durable.
    pub fn try_insert(
        &mut self,
        key: u128,
        value: u32,
        revision: Revision,
    ) -> (appended: Result<Vec<u8>, KVRInsertionError>)
        ensures
            final(self)@ == old(self)@.insert(key, value, revision),
            appended is Ok <==> old(self)@.answers_insert(key) is Accepted,
            appended matches Ok(bytes) ==> bytes@ == record_bytes(
                KeyValueRevisionPersistence {
                    key,
                    value_entry: StoreState::inserted_entry(value, revision),
                },
            ),
            appended matches Err(e) ==> e is KeyExists && old(self)@.answers_insert(key)
                is KeyExists,
    {
        if let Some(_) = self.value_entry_by_key.get(&key) {
            return Err(KVRInsertionError::KeyExists);
        }
        let value_entry = ValueEntry { value, revision, prev_rev: None };
        self.value_entry_by_key.insert(key, value_entry);
        match encode_record(&KeyValueRevisionPersistence { key, value_entry }) {
            Ok(d) => Ok(d),
            Err(e) => Err(KVRInsertionError::SerializationError(e)),
        }
    }

    /// Replaces the entry of a key, if the caller knows its current revision.
    ///
    /// A key that the store does not hold is refused, and so is an expected
    /// revision that is not the current one; the store then stays as it is.
    /// Otherwise the new entry replaces the current one, a store that keeps
    /// history files the replaced entry, and the bytes of the new record are
    /// handed back: appended to the log, they make the write durable.
    pub fn try_update(
        &mut self,
        key: u128,
        value: u32,
        revision: Revision,
        prev_rev: Revision,
    ) -> (appended: Result<Vec<u8>, KVRUpdateError>)
        ensures
            final(self)@ == old(self)@.update(key, value, revision, prev_rev),
            appended is Ok <==> old(self)@.answers_update(key, prev_rev) is Accepted,
            appended matches Ok(bytes) ==> bytes@ == record_bytes(
                KeyValueRevisionPersistence {
                    key,
                    value_entry: StoreState::updated_entry(value, revision, prev_rev),
                },
            ),
            appended matches Err(e) ==> {
                ||| e is KeyDoesNotExist && old(self)@.answers_update(key, prev_rev)
                    is KeyDoesNotExist
                ||| e is PrevRevMismatch && old(self)@.answers_update(key, prev_rev)
                    is PrevRevMismatch
            },
    {
        let replaced = match self.value_entry_by_key.get(&key) {
            Some(current) => *current,
            None => {
                return Err(KVRUpdateError::KeyDoesNotExist);
            },
        };
        if replaced.revision != prev_rev {
            return Err(KVRUpdateError::PrevRevMismatch);
        }
        let value_entry = ValueEntry { value, revision, prev_rev: Some(prev_rev) };
        self.value_entry_by_key.insert(key, value_entry);
        if self.is_keeping_historical_entries_in_memory {
            self.historical_entries.insert(
                (key, replaced.revision.0),
                ValueWithPrevRevRef { prev_rev: replaced.prev_rev, value: replaced.value },
            );
        }
        proof {
            lemma_filed_history_insert(
                old(self).historical_entries@,
                KeyAtRevision { key, revision: prev_rev },
                historical_value(replaced),
            );
        }
        match encode_record(&KeyValueRevisionPersistence { key, value_entry }) {
            Ok(d) => Ok(d),
            Err(e) => Err(KVRUpdateError::SerializationError(e)),
        }
    }

    /// The current entries whose keys lie between two bounds, by ascending key.
    ///
    /// Bounds that leave no key between them give no entries.
    pub fn range(&self, start: KeyBound, end: KeyBound) -> (entries: Vec<(u128, ValueEntry)>)
        ensures
            forall|i: int, j: int| 0 <= i < j < entries.len() ==> entries[i].0 < entries[j].0,
            forall|i: int|
                0 <= i < entries.len() ==> {
                    &&& in_range(start, end, #[trigger] entries[i].0)
                    &&& self@.index.contains_key(entries[i].0)
                    &&& self@.index[entries[i].0] == entries[i].1
                },
            forall|key: u128|
                #[trigger] self@.index.contains_key(key) && in_range(start, end, key) ==> exists|
                    i: int,
                | 0 <= i < entries.len() && entries[i].0 == key,
    {
        let mut entries: Vec<(u128, ValueEntry)> = Vec::new();
        let stored = self.value_entry_by_key.iter();
        proof {
            let keys = stored.remaining().map_values(|kv: (&u128, &ValueEntry)| *kv.0);
            lemma_increasing_keys_ascend(keys);
            assert forall|i: int, j: int| 0 <= i < j < stored.remaining().len() implies *(
            #[trigger] stored.remaining()[i]).0 < *(#[trigger] stored.remaining()[j]).0 by {
                assert(keys[i] < keys[j]);
            }
        }
        for pair in it: stored
            invariant
                lists_in_order(it.seq(), self@.index),
                forall|i: int, j: int| 0 <= i < j < entries.len() ==> entries[i].0 < entries[j].0,
                forall|i: int, j: int|
                    0 <= i < entries.len() && it.index() <= j < it.seq().len() ==> (
                    #[trigger] entries[i]).0 < *(#[trigger] it.seq()[j]).0,
                forall|i: int|
                    0 <= i < entries.len() ==> {
                        &&& in_range(start, end, #[trigger] entries[i].0)
                        &&& self@.index.contains_key(entries[i].0)
                        &&& self@.index[entries[i].0] == entries[i].1
                    },
                forall|j: int|
                    0 <= j < it.index() && in_range(start, end, *(#[trigger] it.seq()[j]).0)
                        ==> exists|i: int|
                        0 <= i < entries.len() && (#[trigger] entries[i]).0 == *it.seq()[j].0,
        {
            let (key, entry) = pair;
            if start.is_at_or_below(*key) && end.is_at_or_above(*key) {
                let ghost before = entries@;
                entries.push((*key, *entry));
                proof {
                    assert forall|j: int|
                        0 <= j < it.index() + 1 && in_range(
                            start,
                            end,
                            *(#[trigger] it.seq()[j]).0,
                        ) implies exists|i: int|
                        0 <= i < entries.len() && (#[trigger] entries[i]).0 == *it.seq()[j].0 by {
                        if j < it.index() {
                            let i = choose|i: int|
                                0 <= i < before.len() && (#[trigger] before[i]).0 == *it.seq()[j].0;
                            assert(entries[i] == before[i]);
                        } else {
                            assert(entries[before.len() as int].0 == *key);
                        }
                    }
                }
            }
        }
        entries
    }

    /// What the store held for a key at one of its revisions, where the
    /// store keeps history and has that revision on file.
    pub fn historical_entry(&self, key: u128, revision: Revision) -> (found: Option<
        ValueWithPrevRevRef,
    >)
        ensures
            found == self@.at(KeyAtRevision { key, revision }),
            !self@.keeps_history ==> found is None,
    {
        if !self.is_keeping_historical_entries_in_memory {
            return None;
        }
        match self.historical_entries.get(&(key, revision.0)) {
            Some(held) => Some(*held),
            None => None,
        }
    }

    /// Whether the store keeps history.
    pub fn is_keeping_historical_entries_in_memory(&self) -> (kept: bool)
        ensures
            kept == self@.keeps_history,
    {
        self.is_keeping_historical_entries_in_memory
    }
}

} // verus!
