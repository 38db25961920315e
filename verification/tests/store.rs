use text_reader::persist::{FieldValue, ProgressRecord, RawRecord};
use text_reader::store::{ProgressStore, RawStore, RawValue};

fn entry(k: &str, page: u64, time: i64) -> (String, ProgressRecord) {
    (k.to_string(), ProgressRecord { page, readed_time: time })
}

#[test]
fn get_on_empty_store_finds_nothing() {
    let s = ProgressStore::new();
    assert_eq!(s.get(&"a.txt".to_string()), None);
}

#[test]
fn set_then_get() {
    let mut s = ProgressStore::new();
    s.set(&"a.txt".to_string(), 4, 100);
    assert_eq!(s.get(&"a.txt".to_string()), Some(ProgressRecord { page: 4, readed_time: 100 }));
}

#[test]
fn set_overwrites_and_refreshes_time() {
    let mut s = ProgressStore::new();
    s.set(&"a.txt".to_string(), 4, 100);
    s.set(&"a.txt".to_string(), 9, 200);
    assert_eq!(s.get(&"a.txt".to_string()), Some(ProgressRecord { page: 9, readed_time: 200 }));
    assert_eq!(s.entries.len(), 1);
}

#[test]
fn two_path_strings_are_distinct_identities() {
    let mut s = ProgressStore::new();
    s.set(&"./a.txt".to_string(), 1, 100);
    s.set(&"a.txt".to_string(), 2, 100);
    assert_eq!(s.entries.len(), 2);
    assert_eq!(s.get(&"./a.txt".to_string()).unwrap().page, 1);
    assert_eq!(s.get(&"a.txt".to_string()).unwrap().page, 2);
}

#[test]
fn get_or_create_returns_existing_page() {
    let mut s = ProgressStore::new();
    s.set(&"a.txt".to_string(), 4, 100);
    assert_eq!(s.get_or_create(&"a.txt".to_string(), 500), 4);
    assert_eq!(s.get(&"a.txt".to_string()).unwrap().readed_time, 100);
}

#[test]
fn get_or_create_makes_default_record() {
    let mut s = ProgressStore::new();
    assert_eq!(s.get_or_create(&"a.txt".to_string(), 500), 0);
    assert_eq!(s.get(&"a.txt".to_string()), Some(ProgressRecord { page: 0, readed_time: 500 }));
}

#[test]
fn store_round_trip() {
    let mut s = ProgressStore::new();
    s.set(&"a.txt".to_string(), 4, 100);
    s.set(&"b.txt".to_string(), 0, 150);
    s.set(&"c.txt".to_string(), 77, 200);
    let loaded = ProgressStore::load(&s.save());
    assert_eq!(loaded.entries, s.entries);
}

#[test]
fn empty_store_round_trip() {
    let s = ProgressStore::new();
    let loaded = ProgressStore::load(&s.save());
    assert!(loaded.entries.is_empty());
}

#[test]
fn malformed_record_fails_alone_and_the_rest_load() {
    let good = RawRecord {
        fields: vec![
            ("page".to_string(), FieldValue::UInt(2)),
            ("readed_time".to_string(), FieldValue::Int(50)),
        ],
    };
    let bad = RawRecord {
        fields: vec![("readed_time".to_string(), FieldValue::Int(50))],
    };
    let raw = RawStore {
        entries: vec![
            ("bad.txt".to_string(), RawValue::Record(bad)),
            ("good.txt".to_string(), RawValue::Record(good)),
            ("other.txt".to_string(), RawValue::Other(FieldValue::Str("x".to_string()))),
        ],
    };
    let loaded = ProgressStore::load(&raw);
    assert_eq!(loaded.entries, vec![entry("good.txt", 2, 50)]);
}

#[test]
fn later_duplicate_identity_wins_on_load() {
    let rec = |p: u64| RawRecord {
        fields: vec![
            ("page".to_string(), FieldValue::UInt(p)),
            ("readed_time".to_string(), FieldValue::Int(1)),
        ],
    };
    let raw = RawStore {
        entries: vec![
            ("a.txt".to_string(), RawValue::Record(rec(1))),
            ("a.txt".to_string(), RawValue::Record(rec(2))),
        ],
    };
    let loaded = ProgressStore::load(&raw);
    assert_eq!(loaded.entries, vec![entry("a.txt", 2, 1)]);
}

#[test]
fn history_orders_by_page_ascending() {
    let mut s = ProgressStore::new();
    s.set(&"high.txt".to_string(), 30, 1);
    s.set(&"low.txt".to_string(), 2, 2);
    s.set(&"mid.txt".to_string(), 10, 3);
    let h = s.history();
    assert_eq!(
        h,
        vec![
            ("low.txt".to_string(), 2),
            ("mid.txt".to_string(), 10),
            ("high.txt".to_string(), 30),
        ]
    );
}

#[test]
fn history_keeps_insertion_order_on_ties() {
    let mut s = ProgressStore::new();
    s.set(&"first.txt".to_string(), 5, 1);
    s.set(&"second.txt".to_string(), 5, 2);
    s.set(&"third.txt".to_string(), 1, 3);
    let h = s.history();
    assert_eq!(
        h,
        vec![
            ("third.txt".to_string(), 1),
            ("first.txt".to_string(), 5),
            ("second.txt".to_string(), 5),
        ]
    );
}

#[test]
fn history_of_empty_store_is_empty() {
    let s = ProgressStore::new();
    assert!(s.history().is_empty());
}
