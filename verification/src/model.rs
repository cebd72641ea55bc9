//! The store as mathematics: what it holds, what a write does to it, and
//! how it stays in step with its log.

use vstd::prelude::*;
use crate::codec::record_bytes;
use crate::data::{
    KeyAtRevision, KeyValueRevisionPersistence, Revision, ValueEntry, ValueWithPrevRevRef,
};
use crate::log::{current_index, full_history, historical_value, lemma_replay_appended, replay};

verus! {

/// What a store holds, as mathematical maps.
pub struct StoreState {
    /// For each key its current entry.
    pub index: Map<u128, ValueEntry>,
    /// For each key at a revision, what the key held at that revision.
    pub history: Map<KeyAtRevision, ValueWithPrevRevRef>,
    /// Whether the store retains history.
    pub keeps_history: bool,
}

/// How a store answers the request to insert a key.
pub enum InsertAnswer {
    /// The key is new: the entry is written.
    Accepted,
    /// The store holds the key already: nothing is written.
    KeyExists,
}

/// How a store answers the request to update a key.
pub enum UpdateAnswer {
    /// The key is there at the expected revision: the entry is replaced.
    Accepted,
    /// The store does not hold the key: nothing is written.
    KeyDoesNotExist,
    /// The key is there at another revision than expected: nothing is written.
    PrevRevMismatch,
}

impl StoreState {
    /// What a store holds after it has replayed `records`.
    pub open spec fn recovered(
        records: Seq<KeyValueRevisionPersistence>,
        keeps_history: bool,
    ) -> StoreState {
        StoreState {
            index: current_index(records),
            history: if keeps_history {
                full_history(records)
            } else {
                Map::empty()
            },
            keeps_history,
        }
    }

    /// What the historical index holds for a key at a revision.
    pub open spec fn at(self, at: KeyAtRevision) -> Option<ValueWithPrevRevRef> {
        if self.history.contains_key(at) {
            Some(self.history[at])
        } else {
            None
        }
    }

    /// The entry that an insert writes: a first write, with no link.
    pub open spec fn inserted_entry(value: u32, revision: Revision) -> ValueEntry {
        ValueEntry { revision, prev_rev: None, value }
    }

    /// The entry that an update writes: it links to the revision it replaces.
    pub open spec fn updated_entry(
        value: u32,
        revision: Revision,
        prev_rev: Revision,
    ) -> ValueEntry {
        ValueEntry { revision, prev_rev: Some(prev_rev), value }
    }

    /// The answer to an insert: accepted for a key that the index does not
    /// hold, and for no other.
    pub open spec fn answers_insert(self, key: u128) -> InsertAnswer {
        if self.index.contains_key(key) {
            InsertAnswer::KeyExists
        } else {
            InsertAnswer::Accepted
        }
    }

    /// The answer to an update: accepted for a key whose current revision is
    /// the one that the caller expects, and for no other.
    pub open spec fn answers_update(self, key: u128, prev_rev: Revision) -> UpdateAnswer {
        if !self.index.contains_key(key) {
            UpdateAnswer::KeyDoesNotExist
        } else if self.index[key].revision != prev_rev {
            UpdateAnswer::PrevRevMismatch
        } else {
            UpdateAnswer::Accepted
        }
    }

    /// The store after an insert was asked for: with the new entry where the
    /// insert is accepted, unchanged where it is not.
    pub open spec fn insert(self, key: u128, value: u32, revision: Revision) -> StoreState {
        if self.answers_insert(key) is Accepted {
            StoreState {
                index: self.index.insert(key, Self::inserted_entry(value, revision)),
                ..self
            }
        } else {
            self
        }
    }

    /// The store after an update was asked for: where the update is
    /// accepted the new entry replaces the current one, and a store that
    /// keeps history files the replaced entry under its own revision;
    /// where it is not accepted the store is unchanged.
    pub open spec fn update(
        self,
        key: u128,
        value: u32,
        revision: Revision,
        prev_rev: Revision,
    ) -> StoreState {
        if self.answers_update(key, prev_rev) is Accepted {
            StoreState {
                index: self.index.insert(key, Self::updated_entry(value, revision, prev_rev)),
                history: if self.keeps_history {
                    self.history.insert(
                        KeyAtRevision { key, revision: prev_rev },
                        historical_value(self.index[key]),
                    )
                } else {
                    self.history
                },
                keeps_history: self.keeps_history,
            }
        } else {
            self
        }
    }
}

/// One write that a caller asks of a store.
pub enum Write {
    /// The first write of a key.
    Insert { key: u128, value: u32, revision: Revision },
    /// A later write of a key, by a caller who expects `prev_rev` to be current.
    Update { key: u128, value: u32, revision: Revision, prev_rev: Revision },
}

impl Write {
    /// The record that this write appends to the log when it is accepted.
    pub open spec fn record(self) -> KeyValueRevisionPersistence {
        match self {
            Write::Insert { key, value, revision } => KeyValueRevisionPersistence {
                key,
                value_entry: StoreState::inserted_entry(value, revision),
            },
            Write::Update { key, value, revision, prev_rev } => KeyValueRevisionPersistence {
                key,
                value_entry: StoreState::updated_entry(value, revision, prev_rev),
            },
        }
    }
}

impl StoreState {
    /// Whether the store accepts a write.
    pub open spec fn accepts(self, write: Write) -> bool {
        match write {
            Write::Insert { key, .. } => self.answers_insert(key) is Accepted,
            Write::Update { key, prev_rev, .. } => self.answers_update(key, prev_rev) is Accepted,
        }
    }

    /// The store after a write was asked for.
    pub open spec fn apply(self, write: Write) -> StoreState {
        match write {
            Write::Insert { key, value, revision } => self.insert(key, value, revision),
            Write::Update { key, value, revision, prev_rev } => self.update(
                key,
                value,
                revision,
                prev_rev,
            ),
        }
    }

    /// Whether the store accepts each of `writes` when they are asked for
    /// one after another.
    pub open spec fn accepts_all(self, writes: Seq<Write>) -> bool
        decreases writes.len(),
    {
        writes.len() > 0 ==> self.accepts_all(writes.drop_last()) && self.apply_all(
            writes.drop_last(),
        ).accepts(writes.last())
    }

    /// The store after `writes` were asked for one after another.
    pub open spec fn apply_all(self, writes: Seq<Write>) -> StoreState
        decreases writes.len(),
    {
        if writes.len() == 0 {
            self
        } else {
            self.apply_all(writes.drop_last()).apply(writes.last())
        }
    }

    /// Whether the current index is the one that replaying `log` gives.
    pub open spec fn in_step_with(self, log: Seq<u8>) -> bool {
        replay(log) matches Some(records) && self.index == current_index(records)
    }

    /// A store that does not keep history holds none.
    pub open spec fn well_formed(self) -> bool {
        !self.keeps_history ==> self.history == Map::<KeyAtRevision, ValueWithPrevRevRef>::empty()
    }
}

/// The bytes that accepted writes append to the log, in their order.
pub open spec fn appended_bytes(writes: Seq<Write>) -> Seq<u8>
    decreases writes.len(),
{
    if writes.len() == 0 {
        Seq::empty()
    } else {
        appended_bytes(writes.drop_last()) + record_bytes(writes.last().record())
    }
}

/// Replaying one log twice gives one index: two stores opened from the same
/// bytes hold the same current entries, whether or not they keep history,
/// and the same history where both keep it.
pub proof fn lemma_recovery_repeats(log: Seq<u8>, first_keeps: bool, second_keeps: bool)
    requires
        replay(log) is Some,
    ensures
        StoreState::recovered(replay(log).unwrap(), first_keeps).index == StoreState::recovered(
            replay(log).unwrap(),
            second_keeps,
        ).index,
        first_keeps == second_keeps ==> StoreState::recovered(replay(log).unwrap(), first_keeps)
            == StoreState::recovered(replay(log).unwrap(), second_keeps),
{
}

/// A store that was just opened is in step with the log it was opened from.
pub proof fn lemma_recovered_in_step(log: Seq<u8>, keeps_history: bool)
    requires
        replay(log) is Some,
    ensures
        StoreState::recovered(replay(log).unwrap(), keeps_history).in_step_with(log),
{
}

/// An accepted write keeps store and log in step: once its bytes are
/// appended, a replay of the log gives the index that the store holds.
pub proof fn lemma_write_stays_in_step(store: StoreState, log: Seq<u8>, write: Write)
    requires
        store.in_step_with(log),
        store.accepts(write),
    ensures
        store.apply(write).in_step_with(log + record_bytes(write.record())),
{
    lemma_replay_appended(log, write.record());
    let records = replay(log).unwrap();
    assert(records.push(write.record()).drop_last() == records);
}

/// However many writes a store accepts, closing it and opening it again
/// from the log with their bytes appended gives back the index that the
/// store held.
pub proof fn lemma_reopening_reproduces_index(
    store: StoreState,
    log: Seq<u8>,
    writes: Seq<Write>,
    reopened_keeps_history: bool,
)
    requires
        store.in_step_with(log),
        store.accepts_all(writes),
    ensures
        replay(log + appended_bytes(writes)) is Some,
        StoreState::recovered(
            replay(log + appended_bytes(writes)).unwrap(),
            reopened_keeps_history,
        ).index == store.apply_all(writes).index,
    decreases writes.len(),
{
    if writes.len() == 0 {
        assert(log + appended_bytes(writes) == log);
    } else {
        let earlier = writes.drop_last();
        lemma_reopening_reproduces_index(store, log, earlier, reopened_keeps_history);
        lemma_write_stays_in_step(
            store.apply_all(earlier),
            log + appended_bytes(earlier),
            writes.last(),
        );
        assert(log + appended_bytes(writes) == (log + appended_bytes(earlier)) + record_bytes(
            writes.last().record(),
        ));
    }
}

/// A key can be inserted once: an insert of a new key is accepted, and
/// whatever a first insert of a key found, a second insert of that key is
/// answered with `KeyExists` and leaves the store as the first left it.
pub proof fn lemma_insert_is_exclusive(
    store: StoreState,
    key: u128,
    first_value: u32,
    first_revision: Revision,
    second_value: u32,
    second_revision: Revision,
)
    ensures
        !store.index.contains_key(key) ==> store.answers_insert(key) is Accepted,
        store.insert(key, first_value, first_revision).answers_insert(key) is KeyExists,
        store.insert(key, first_value, first_revision).insert(key, second_value, second_revision)
            == store.insert(key, first_value, first_revision),
{
}

/// An update compares and swaps: with the current revision it is accepted
/// and makes the new revision current; with any other it is answered with
/// `PrevRevMismatch` and leaves the store as it was.
pub proof fn lemma_update_compares_and_swaps(
    store: StoreState,
    key: u128,
    value: u32,
    revision: Revision,
    expected: Revision,
)
    requires
        store.index.contains_key(key),
    ensures
        expected == store.index[key].revision ==> {
            &&& store.answers_update(key, expected) is Accepted
            &&& store.update(key, value, revision, expected).index[key]
                == StoreState::updated_entry(value, revision, expected)
            &&& store.update(key, value, revision, expected).index[key].revision == revision
        },
        expected != store.index[key].revision ==> {
            &&& store.answers_update(key, expected) is PrevRevMismatch
            &&& store.update(key, value, revision, expected) == store
        },
{
}

/// The link of an updated entry leads somewhere: a store that keeps history
/// has the replaced entry on file under the revision that the new entry
/// names as its predecessor.
pub proof fn lemma_update_files_replaced_entry(
    store: StoreState,
    key: u128,
    value: u32,
    revision: Revision,
    prev_rev: Revision,
)
    requires
        store.keeps_history,
        store.answers_update(key, prev_rev) is Accepted,
    ensures
        store.update(key, value, revision, prev_rev).index[key].prev_rev == Some(prev_rev),
        store.update(key, value, revision, prev_rev).at(KeyAtRevision { key, revision: prev_rev })
            == Some(historical_value(store.index[key])),
{
}

/// No write gives history to a store that does not keep it, and opening a
/// store without history gives it none.
pub proof fn lemma_history_only_when_kept(
    store: StoreState,
    write: Write,
    records: Seq<KeyValueRevisionPersistence>,
    keeps_history: bool,
)
    ensures
        store.well_formed() ==> store.apply(write).well_formed(),
        StoreState::recovered(records, keeps_history).well_formed(),
{
}

} // verus!
