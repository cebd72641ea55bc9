use kvr::data::{KeyValueRevisionPersistence, Revision, ValueEntry, ValueWithPrevRevRef};
use kvr::error::{KVRInitializationError, KVRInsertionError, KVRUpdateError};
use kvr::log::read_log;
use kvr::magic::Magic;
use kvr::{KeyBound, KeyValueRevision};

const R1: Revision = Revision(0x0000_0000_0000_0000_0000_0000_0000_0101);
const R2: Revision = Revision(0x0000_0000_0000_0000_0000_0000_0000_0202);
const R3: Revision = Revision(0x0102_0304_0506_0708_090a_0b0c_0d0e_0f10);

fn open(log: &[u8], keep: bool) -> KeyValueRevision {
    match KeyValueRevision::try_init(log, keep) {
        Ok(store) => store,
        Err(e) => panic!("the log should open: {:?}", e),
    }
}

fn inserted(store: &mut KeyValueRevision, key: u128, value: u32, revision: Revision) -> Vec<u8> {
    match store.try_insert(key, value, revision) {
        Ok(bytes) => bytes,
        Err(_) => panic!("the insert should be accepted"),
    }
}

fn updated(
    store: &mut KeyValueRevision,
    key: u128,
    value: u32,
    revision: Revision,
    prev_rev: Revision,
) -> Vec<u8> {
    match store.try_update(key, value, revision, prev_rev) {
        Ok(bytes) => bytes,
        Err(_) => panic!("the update should be accepted"),
    }
}

fn all(store: &KeyValueRevision) -> Vec<(u128, ValueEntry)> {
    store.range(KeyBound::Unbounded, KeyBound::Unbounded)
}

#[test]
fn empty_log_opens_empty_store() {
    let store = open(&[], true);
    assert_eq!(all(&store), vec![]);
    assert!(store.is_keeping_historical_entries_in_memory());
    assert_eq!(store.historical_entry(1, R1), None);
}

#[test]
fn insert_then_update_then_reopen() {
    let mut log: Vec<u8> = Vec::new();
    let mut store = open(&log, true);

    log.extend(inserted(&mut store, 1, 10, R1));
    assert!(matches!(store.try_insert(1, 99, R2), Err(KVRInsertionError::KeyExists)));
    log.extend(updated(&mut store, 1, 20, R3, R1));

    let current = ValueEntry { revision: R3, prev_rev: Some(R1), value: 20 };
    assert_eq!(all(&store), vec![(1, current)]);

    let reopened = open(&log, true);
    assert_eq!(all(&reopened), vec![(1, current)]);
    assert_eq!(
        reopened.historical_entry(1, R1),
        Some(ValueWithPrevRevRef { prev_rev: None, value: 10 })
    );
    assert_eq!(
        reopened.historical_entry(1, R3),
        Some(ValueWithPrevRevRef { prev_rev: Some(R1), value: 20 })
    );
    assert_eq!(reopened.historical_entry(1, R2), None);

    let without_history = open(&log, false);
    assert_eq!(all(&without_history), vec![(1, current)]);
    assert!(!without_history.is_keeping_historical_entries_in_memory());
    assert_eq!(without_history.historical_entry(1, R1), None);
    assert_eq!(without_history.historical_entry(1, R3), None);
}

#[test]
fn insert_hands_back_the_bytes_of_its_record() {
    let mut store = open(&[], false);
    let bytes = inserted(&mut store, 1, 10, R1);
    let mut expected: Vec<u8> = Vec::new();
    expected.extend([1, 0, 0, 0, 0, 0, 0, 0, 0, 0, 0, 0, 0, 0, 0, 0]);
    expected.extend([1, 1, 0, 0, 0, 0, 0, 0, 0, 0, 0, 0, 0, 0, 0, 0]);
    expected.push(0);
    expected.extend([10, 0, 0, 0]);
    assert_eq!(bytes.len(), 37);
    assert_eq!(bytes, expected);
}

#[test]
fn update_hands_back_the_bytes_of_its_record() {
    let mut store = open(&[], false);
    inserted(&mut store, 0x0a0b, 7, R1);
    let bytes = updated(&mut store, 0x0a0b, 0x0403_0201, R3, R1);
    let mut expected: Vec<u8> = Vec::new();
    expected.extend([0x0b, 0x0a, 0, 0, 0, 0, 0, 0, 0, 0, 0, 0, 0, 0, 0, 0]);
    expected.extend([
        0x10, 0x0f, 0x0e, 0x0d, 0x0c, 0x0b, 0x0a, 0x09, 0x08, 0x07, 0x06, 0x05, 0x04, 0x03, 0x02,
        0x01,
    ]);
    expected.push(1);
    expected.extend([1, 1, 0, 0, 0, 0, 0, 0, 0, 0, 0, 0, 0, 0, 0, 0]);
    expected.extend([0x01, 0x02, 0x03, 0x04]);
    assert_eq!(bytes.len(), 53);
    assert_eq!(bytes, expected);
}

#[test]
fn record_bytes_are_those_of_the_encoder() {
    let mut store = open(&[], false);
    let first = inserted(&mut store, 5, 50, R1);
    let second = updated(&mut store, 5, 51, R2, R1);
    let plain_first: (u128, u128, Option<u128>, u32) = (5, R1.0, None, 50);
    let plain_second: (u128, u128, Option<u128>, u32) = (5, R2.0, Some(R1.0), 51);
    assert_eq!(first, bincode::serialize(&plain_first).unwrap());
    assert_eq!(second, bincode::serialize(&plain_second).unwrap());
}

#[test]
fn replay_reads_what_the_encoder_wrote() {
    let mut log: Vec<u8> = Vec::new();
    let plain_first: (u128, u128, Option<u128>, u32) = (9, R2.0, None, 1);
    let plain_second: (u128, u128, Option<u128>, u32) = (8, R3.0, Some(R2.0), u32::MAX);
    log.extend(bincode::serialize(&plain_first).unwrap());
    log.extend(bincode::serialize(&plain_second).unwrap());
    let store = open(&log, true);
    assert_eq!(
        all(&store),
        vec![
            (8, ValueEntry { revision: R3, prev_rev: Some(R2), value: u32::MAX }),
            (9, ValueEntry { revision: R2, prev_rev: None, value: 1 }),
        ]
    );
    assert_eq!(
        store.historical_entry(8, R3),
        Some(ValueWithPrevRevRef { prev_rev: Some(R2), value: u32::MAX })
    );
}

#[test]
fn replaying_twice_gives_the_same_index() {
    let mut log: Vec<u8> = Vec::new();
    let mut store = open(&log, false);
    log.extend(inserted(&mut store, 3, 30, R1));
    log.extend(inserted(&mut store, 1, 10, R2));
    log.extend(updated(&mut store, 3, 31, R3, R1));
    let first = open(&log, false);
    let second = open(&log, true);
    assert_eq!(all(&first), all(&second));
    assert_eq!(all(&first), all(&store));
}

#[test]
fn reopening_reproduces_the_index_after_many_writes() {
    let mut log: Vec<u8> = Vec::new();
    let mut store = open(&log, true);
    let mut key: u128 = 0;
    while key < 20 {
        log.extend(inserted(&mut store, key * 7 % 20, key as u32, Revision(key)));
        key += 1;
    }
    let mut round: u128 = 0;
    while round < 3 {
        let mut key: u128 = 0;
        while key < 20 {
            let held = store.range(KeyBound::Included(key), KeyBound::Included(key))[0].1;
            let next = Revision(held.revision.0 + 100);
            log.extend(updated(&mut store, key, held.value + 1, next, held.revision));
            key += 2;
        }
        round += 1;
    }
    let before_close = all(&store);
    assert_eq!(before_close.len(), 20);
    let reopened = open(&log, false);
    assert_eq!(all(&reopened), before_close);
}

#[test]
fn later_records_win_on_replay() {
    let mut log: Vec<u8> = Vec::new();
    let older: (u128, u128, Option<u128>, u32) = (4, R1.0, None, 1);
    let newer: (u128, u128, Option<u128>, u32) = (4, R2.0, None, 2);
    log.extend(bincode::serialize(&older).unwrap());
    log.extend(bincode::serialize(&newer).unwrap());
    let store = open(&log, true);
    assert_eq!(all(&store), vec![(4, ValueEntry { revision: R2, prev_rev: None, value: 2 })]);
    assert_eq!(
        store.historical_entry(4, R1),
        Some(ValueWithPrevRevRef { prev_rev: None, value: 1 })
    );
    assert_eq!(
        store.historical_entry(4, R2),
        Some(ValueWithPrevRevRef { prev_rev: None, value: 2 })
    );
}

#[test]
fn cut_log_is_refused() {
    let mut store = open(&[], false);
    let mut log = inserted(&mut store, 1, 10, R1);
    log.extend(updated(&mut store, 1, 11, R2, R1));
    let mut cut = log.len() - 1;
    while cut > 37 {
        assert!(matches!(
            KeyValueRevision::try_init(&log[..cut], true),
            Err(KVRInitializationError::FailedToDeserializeValue(_))
        ));
        cut -= 1;
    }
    assert!(KeyValueRevision::try_init(&log[..37], true).is_ok());
    assert!(matches!(
        KeyValueRevision::try_init(&log[..36], false),
        Err(KVRInitializationError::FailedToDeserializeValue(_))
    ));
    assert!(matches!(
        KeyValueRevision::try_init(&log[..1], false),
        Err(KVRInitializationError::FailedToDeserializeValue(_))
    ));
}

#[test]
fn unknown_link_tag_is_refused() {
    let mut store = open(&[], false);
    let mut log = inserted(&mut store, 1, 10, R1);
    log[32] = 2;
    assert!(matches!(
        KeyValueRevision::try_init(&log, false),
        Err(KVRInitializationError::FailedToDeserializeValue(_))
    ));
    log[32] = 1;
    assert!(matches!(
        KeyValueRevision::try_init(&log, false),
        Err(KVRInitializationError::FailedToDeserializeValue(_))
    ));
    log[32] = 0;
    assert!(KeyValueRevision::try_init(&log, false).is_ok());
}

#[test]
fn second_insert_of_a_key_is_refused() {
    let mut store = open(&[], false);
    assert!(store.try_insert(7, 1, R1).is_ok());
    let before = all(&store);
    let _ = store.range(KeyBound::Included(7), KeyBound::Excluded(8));
    assert!(matches!(store.try_insert(7, 2, R2), Err(KVRInsertionError::KeyExists)));
    assert!(matches!(store.try_insert(7, 1, R1), Err(KVRInsertionError::KeyExists)));
    assert_eq!(all(&store), before);
    assert!(store.try_insert(8, 2, R2).is_ok());
}

#[test]
fn update_of_a_missing_key_is_refused() {
    let mut store = open(&[], true);
    assert!(matches!(store.try_update(7, 1, R2, R1), Err(KVRUpdateError::KeyDoesNotExist)));
    assert_eq!(all(&store), vec![]);
    assert_eq!(store.historical_entry(7, R1), None);
}

#[test]
fn update_compares_and_swaps() {
    let mut store = open(&[], true);
    inserted(&mut store, 7, 1, R1);
    assert!(matches!(store.try_update(7, 2, R3, R2), Err(KVRUpdateError::PrevRevMismatch)));
    assert!(matches!(store.try_update(7, 2, R3, R3), Err(KVRUpdateError::PrevRevMismatch)));
    assert_eq!(all(&store), vec![(7, ValueEntry { revision: R1, prev_rev: None, value: 1 })]);
    assert_eq!(store.historical_entry(7, R1), None);

    assert!(store.try_update(7, 2, R2, R1).is_ok());
    assert_eq!(
        all(&store),
        vec![(7, ValueEntry { revision: R2, prev_rev: Some(R1), value: 2 })]
    );
    assert!(matches!(store.try_update(7, 3, R3, R1), Err(KVRUpdateError::PrevRevMismatch)));
    assert!(store.try_update(7, 3, R3, R2).is_ok());
    assert_eq!(
        all(&store),
        vec![(7, ValueEntry { revision: R3, prev_rev: Some(R2), value: 3 })]
    );
}

#[test]
fn update_files_the_replaced_entry() {
    let mut keeping = open(&[], true);
    inserted(&mut keeping, 7, 1, R1);
    updated(&mut keeping, 7, 2, R2, R1);
    assert_eq!(
        keeping.historical_entry(7, R1),
        Some(ValueWithPrevRevRef { prev_rev: None, value: 1 })
    );
    assert_eq!(keeping.historical_entry(7, R2), None);
    updated(&mut keeping, 7, 3, R3, R2);
    assert_eq!(
        keeping.historical_entry(7, R2),
        Some(ValueWithPrevRevRef { prev_rev: Some(R1), value: 2 })
    );

    let mut plain = open(&[], false);
    inserted(&mut plain, 7, 1, R1);
    updated(&mut plain, 7, 2, R2, R1);
    assert_eq!(plain.historical_entry(7, R1), None);
}

#[test]
fn range_ascends_without_duplicates() {
    let mut store = open(&[], false);
    for key in [50u128, 10, 40, 20, 30, u128::MAX, 0] {
        inserted(&mut store, key, key as u32, Revision(key));
    }
    updated(&mut store, 30, 31, R1, Revision(30));
    let found = all(&store);
    let keys: Vec<u128> = found.iter().map(|pair| pair.0).collect();
    assert_eq!(keys, vec![0, 10, 20, 30, 40, 50, u128::MAX]);
    let mut i = 1;
    while i < found.len() {
        assert!(found[i - 1].0 < found[i].0);
        i += 1;
    }
    assert_eq!(found[3].1, ValueEntry { revision: R1, prev_rev: Some(Revision(30)), value: 31 });
}

#[test]
fn range_honours_its_bounds() {
    let mut store = open(&[], false);
    for key in [10u128, 20, 30, 40] {
        inserted(&mut store, key, 0, Revision(key));
    }
    let keys = |start: KeyBound, end: KeyBound| -> Vec<u128> {
        store.range(start, end).iter().map(|pair| pair.0).collect()
    };
    assert_eq!(keys(KeyBound::Included(20), KeyBound::Included(30)), vec![20, 30]);
    assert_eq!(keys(KeyBound::Excluded(20), KeyBound::Included(30)), vec![30]);
    assert_eq!(keys(KeyBound::Included(20), KeyBound::Excluded(30)), vec![20]);
    assert_eq!(keys(KeyBound::Excluded(20), KeyBound::Excluded(30)), Vec::<u128>::new());
    assert_eq!(keys(KeyBound::Unbounded, KeyBound::Excluded(30)), vec![10, 20]);
    assert_eq!(keys(KeyBound::Excluded(10), KeyBound::Unbounded), vec![20, 30, 40]);
    assert_eq!(keys(KeyBound::Included(11), KeyBound::Included(19)), Vec::<u128>::new());
    assert_eq!(keys(KeyBound::Included(30), KeyBound::Included(20)), Vec::<u128>::new());
    assert_eq!(keys(KeyBound::Excluded(20), KeyBound::Excluded(20)), Vec::<u128>::new());
    assert_eq!(keys(KeyBound::Included(0), KeyBound::Included(u128::MAX)), vec![10, 20, 30, 40]);
}

#[test]
fn sentinels_survive_the_log() {
    let mut log: Vec<u8> = Vec::new();
    let mut store = open(&log, true);
    log.extend(inserted(&mut store, u128::magic(), u32::magic(), Revision::magic()));
    log.extend(updated(&mut store, u128::magic(), 0, R1, Revision::magic()));
    let records = read_log(&log).unwrap();
    assert_eq!(records.len(), 2);
    assert_eq!(
        records[0],
        KeyValueRevisionPersistence {
            key: 0x8080_8080_8080_8080_8080_8080_8080_8080,
            value_entry: ValueEntry {
                revision: Revision(1963750875627707164224818581967208448),
                prev_rev: None,
                value: 0x2020_2020,
            },
        }
    );
    assert_eq!(
        records[1],
        KeyValueRevisionPersistence {
            key: u128::magic(),
            value_entry: ValueEntry { revision: R1, prev_rev: Some(Revision::magic()), value: 0 },
        }
    );
}

#[test]
fn read_log_takes_whole_records_only() {
    assert_eq!(read_log(&[]).unwrap(), vec![]);
    let mut store = open(&[], false);
    let mut log = inserted(&mut store, 2, 22, R2);
    assert_eq!(read_log(&log).unwrap().len(), 1);
    log.push(0);
    assert!(read_log(&log).is_err());
    assert!(read_log(&[0u8; 36]).is_err());
    assert_eq!(
        read_log(&[0u8; 37]).unwrap(),
        vec![KeyValueRevisionPersistence {
            key: 0,
            value_entry: ValueEntry { revision: Revision(0), prev_rev: None, value: 0 },
        }]
    );
    assert_eq!(read_log(&[0u8; 74]).unwrap().len(), 2);
}
