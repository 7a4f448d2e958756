use kv_store::db::clock::Timestamp;
use kv_store::db::clock::Ttl;
use kv_store::db::storage::Operation;
use kv_store::db::storage::Storage;
use kv_store::db::storage::StorageError;

fn at(secs: u64) -> Timestamp {
    Timestamp { secs, nanos: 0 }
}

fn secs(secs: u64) -> Option<Ttl> {
    Some(Ttl { secs, nanos: 0 })
}

fn sorted(mut pairs: Vec<(String, String)>) -> Vec<(String, String)> {
    pairs.sort();
    pairs
}

fn pair(key: &str, value: &str) -> (String, String) {
    (key.to_string(), value.to_string())
}

#[test]
fn storage_test_set_get() {
    let mut storage = Storage::new();
    storage.set("key1".to_string(), "value1".to_string());

    assert_eq!(storage.get("key1"), Some(&"value1".to_string()));
}

#[test]
fn test_set_with_ttl() {
    let mut storage = Storage::new();
    let written = at(1_000);
    storage.set_with_ttl_at(
        "key1".to_string(),
        "value1".to_string(),
        Some(Ttl { secs: 2, nanos: 0 }),
        written,
    );
    assert_eq!(storage.get_at("key1", at(1_003)), None);
}

#[test]
fn storage_test_delete() {
    let mut storage = Storage::new();
    storage.set("key1".to_string(), "value2".to_string());
    storage.delete("key1");
    assert_eq!(storage.get("key1"), None);
}

#[test]
fn test_save_load() {
    let mut storage = Storage::new();
    storage.set("key1".to_string(), "value1".to_string());
    storage.set("key2".to_string(), "value2".to_string());

    let snapshot = storage.to_snapshot().unwrap();

    let mut load_storage = Storage::from_snapshot(&snapshot).unwrap();
    assert_eq!(load_storage.get("key1"), Some(&"value1".to_string()));
    assert_eq!(load_storage.get("key2"), Some(&"value2".to_string()));
}

#[test]
fn test_transaction() {
    let mut storage: Storage = Storage::new();
    storage.begin_transaction();

    storage.add_operation(Operation::Put("key1".to_string(), "value1".to_string()));
    storage.add_operation(Operation::Put("key2".to_string(), "value2".to_string()));
    let _ = storage.commit_transaction();

    assert_eq!(storage.get("key1"), Some(&"value1".to_string()));
    assert_eq!(storage.get("key2"), Some(&"value2".to_string()));

    storage.begin_transaction();
    storage.add_operation(Operation::Delete("key1".to_string()));
    let _ = storage.commit_transaction();
    assert_eq!(storage.get("key1"), None);
    storage.begin_transaction();
    storage.add_operation(Operation::Delete("key2".to_string()));
    storage.rollback_transaction();
    assert_eq!(storage.get("key2"), Some(&"value2".to_string()));
}

#[test]
fn get_of_a_key_never_set_is_absent() {
    let mut storage = Storage::new();
    assert_eq!(storage.get("missing"), None);
    assert_eq!(storage.get_at("missing", at(5)), None);
}

#[test]
fn set_overwrites_the_value() {
    let mut storage = Storage::new();
    storage.set("k".to_string(), "old".to_string());
    storage.set("k".to_string(), "new".to_string());
    assert_eq!(storage.get("k"), Some(&"new".to_string()));
    assert_eq!(storage.entries(), vec![pair("k", "new")]);
}

#[test]
fn key_lives_up_to_and_including_its_deadline() {
    let mut storage = Storage::new();
    let span = Some(Ttl { secs: 2, nanos: 500 });
    storage.set_with_ttl_at("k".to_string(), "v".to_string(), span, at(10));
    assert_eq!(storage.get_at("k", at(10)), Some(&"v".to_string()));
    assert_eq!(
        storage.get_at("k", Timestamp { secs: 12, nanos: 500 }),
        Some(&"v".to_string())
    );
    assert_eq!(storage.get_at("k", Timestamp { secs: 12, nanos: 501 }), None);
}

#[test]
fn expired_read_evicts_from_both_maps() {
    let mut storage = Storage::new();
    storage.set_with_ttl_at("k".to_string(), "v".to_string(), secs(1), at(10));
    assert_eq!(storage.get_at("k", at(20)), None);
    assert_eq!(storage.delete("k"), None);
    storage.set("k".to_string(), "again".to_string());
    assert_eq!(storage.get_at("k", at(30)), Some(&"again".to_string()));
}

#[test]
fn plain_set_keeps_an_existing_deadline() {
    let mut storage = Storage::new();
    storage.set_with_ttl_at("k".to_string(), "v".to_string(), secs(5), at(10));
    storage.set("k".to_string(), "w".to_string());
    assert_eq!(storage.get_at("k", at(15)), Some(&"w".to_string()));
    assert_eq!(storage.get_at("k", at(16)), None);
}

#[test]
fn set_with_ttl_overwrites_an_earlier_deadline() {
    let mut storage = Storage::new();
    storage.set_with_ttl_at("k".to_string(), "v".to_string(), secs(5), at(10));
    storage.set_with_ttl_at("k".to_string(), "w".to_string(), secs(50), at(12));
    assert_eq!(storage.get_at("k", at(62)), Some(&"w".to_string()));
    assert_eq!(storage.get_at("k", at(63)), None);
}

#[test]
fn set_without_ttl_clears_the_deadline() {
    let mut storage = Storage::new();
    storage.set_with_ttl_at("k".to_string(), "v".to_string(), secs(1), at(10));
    storage.set_with_ttl_at("k".to_string(), "w".to_string(), None, at(11));
    assert_eq!(
        storage.get_at("k", Timestamp { secs: u64::MAX, nanos: u32::MAX }),
        Some(&"w".to_string())
    );
    storage.clean_expired_keys_at(Timestamp { secs: u64::MAX, nanos: u32::MAX });
    assert_eq!(storage.get_at("k", at(0)), Some(&"w".to_string()));
}

#[test]
fn set_with_ttl_reads_the_clock() {
    let mut storage = Storage::new();
    storage.set_with_ttl("long".to_string(), "v".to_string(), secs(3_600));
    storage.set_with_ttl("none".to_string(), "w".to_string(), None);
    assert_eq!(storage.get("long"), Some(&"v".to_string()));
    assert_eq!(storage.get("none"), Some(&"w".to_string()));
    storage.clean_expired_keys();
    assert_eq!(storage.get("long"), Some(&"v".to_string()));
    assert_eq!(storage.get_at("long", at(0)), Some(&"v".to_string()));
    assert_eq!(storage.get_at("long", at(u64::MAX)), None);
}

#[test]
fn key_written_in_the_past_is_expired_for_the_clock() {
    let mut storage = Storage::new();
    storage.set_with_ttl_at("k".to_string(), "v".to_string(), secs(1), at(0));
    assert_eq!(storage.get("k"), None);
    assert_eq!(storage.entries(), Vec::<(String, String)>::new());
}

#[test]
fn sweep_removes_expired_keys_without_a_read() {
    let mut storage = Storage::new();
    storage.set_with_ttl_at("a".to_string(), "1".to_string(), secs(1), at(10));
    storage.set_with_ttl_at("b".to_string(), "2".to_string(), secs(9), at(10));
    storage.set_with_ttl_at("c".to_string(), "3".to_string(), secs(2), at(10));
    storage.set("d".to_string(), "4".to_string());
    storage.clean_expired_keys_at(at(15));
    assert_eq!(sorted(storage.entries()), vec![pair("b", "2"), pair("d", "4")]);
    // The deadlines of the swept keys are gone too: a plain write now stays.
    storage.set("a".to_string(), "back".to_string());
    assert_eq!(storage.get_at("a", at(1_000)), Some(&"back".to_string()));
    // The deadline of a key that was not due is kept.
    assert_eq!(storage.get_at("b", at(19)), Some(&"2".to_string()));
    assert_eq!(storage.get_at("b", at(20)), None);
}

#[test]
fn sweep_at_the_deadline_keeps_the_key() {
    let mut storage = Storage::new();
    storage.set_with_ttl_at("a".to_string(), "1".to_string(), secs(5), at(10));
    storage.clean_expired_keys_at(at(15));
    assert_eq!(storage.entries(), vec![pair("a", "1")]);
    storage.clean_expired_keys_at(Timestamp { secs: 15, nanos: 1 });
    assert_eq!(storage.entries(), Vec::<(String, String)>::new());
}

#[test]
fn delete_hands_back_the_previous_value() {
    let mut storage = Storage::new();
    storage.set("k".to_string(), "v".to_string());
    assert_eq!(storage.delete("k"), Some("v".to_string()));
    assert_eq!(storage.delete("k"), None);
}

#[test]
fn delete_hands_back_a_stale_value() {
    let mut storage = Storage::new();
    storage.set_with_ttl_at("k".to_string(), "v".to_string(), secs(1), at(0));
    assert_eq!(storage.delete("k"), Some("v".to_string()));
    assert_eq!(storage.get("k"), None);
}

#[test]
fn commit_without_transaction_fails_and_changes_nothing() {
    let mut storage = Storage::new();
    storage.set("k".to_string(), "v".to_string());
    assert_eq!(storage.commit_transaction(), Err(StorageError::NoActiveTransaction));
    assert_eq!(storage.entries(), vec![pair("k", "v")]);
}

#[test]
fn commit_closes_the_transaction() {
    let mut storage = Storage::new();
    storage.begin_transaction();
    storage.add_operation(Operation::Put("k".to_string(), "v".to_string()));
    assert_eq!(storage.commit_transaction(), Ok(()));
    assert_eq!(storage.commit_transaction(), Err(StorageError::NoActiveTransaction));
    assert_eq!(storage.get("k"), Some(&"v".to_string()));
}

#[test]
fn commit_applies_operations_in_order() {
    let mut storage = Storage::new();
    storage.set("gone".to_string(), "x".to_string());
    storage.begin_transaction();
    storage.add_operation(Operation::Put("k".to_string(), "first".to_string()));
    storage.add_operation(Operation::Delete("gone".to_string()));
    storage.add_operation(Operation::Put("k".to_string(), "second".to_string()));
    storage.add_operation(Operation::Put("gone".to_string(), "y".to_string()));
    storage.add_operation(Operation::Delete("never".to_string()));
    assert_eq!(sorted(storage.entries()), vec![pair("gone", "x")]);
    assert_eq!(storage.commit_transaction(), Ok(()));
    assert_eq!(sorted(storage.entries()), vec![pair("gone", "y"), pair("k", "second")]);
}

#[test]
fn second_begin_discards_buffered_operations() {
    let mut storage = Storage::new();
    storage.begin_transaction();
    storage.add_operation(Operation::Put("lost".to_string(), "v".to_string()));
    storage.begin_transaction();
    storage.add_operation(Operation::Put("kept".to_string(), "w".to_string()));
    assert_eq!(storage.commit_transaction(), Ok(()));
    assert_eq!(storage.entries(), vec![pair("kept", "w")]);
}

#[test]
fn add_operation_without_transaction_is_dropped() {
    let mut storage = Storage::new();
    storage.add_operation(Operation::Put("k".to_string(), "v".to_string()));
    storage.begin_transaction();
    assert_eq!(storage.commit_transaction(), Ok(()));
    assert_eq!(storage.get("k"), None);
}

#[test]
fn rollback_without_transaction_does_nothing() {
    let mut storage = Storage::new();
    storage.set("k".to_string(), "v".to_string());
    storage.rollback_transaction();
    assert_eq!(storage.entries(), vec![pair("k", "v")]);
    assert_eq!(storage.commit_transaction(), Err(StorageError::NoActiveTransaction));
}

#[test]
fn rollback_leaves_keys_as_they_were() {
    let mut storage = Storage::new();
    storage.set("a".to_string(), "1".to_string());
    storage.begin_transaction();
    storage.add_operation(Operation::Put("a".to_string(), "2".to_string()));
    storage.add_operation(Operation::Put("b".to_string(), "3".to_string()));
    storage.add_operation(Operation::Delete("a".to_string()));
    storage.rollback_transaction();
    assert_eq!(storage.entries(), vec![pair("a", "1")]);
    assert_eq!(storage.commit_transaction(), Err(StorageError::NoActiveTransaction));
}

#[test]
fn committed_write_keeps_the_deadline_of_its_key() {
    let mut storage = Storage::new();
    storage.set_with_ttl_at("k".to_string(), "v".to_string(), secs(5), at(10));
    storage.begin_transaction();
    storage.add_operation(Operation::Put("k".to_string(), "w".to_string()));
    assert_eq!(storage.commit_transaction(), Ok(()));
    assert_eq!(storage.get_at("k", at(15)), Some(&"w".to_string()));
    assert_eq!(storage.get_at("k", at(16)), None);
}

#[test]
fn snapshot_of_one_key_is_a_json_object() {
    let mut storage = Storage::new();
    storage.set("a".to_string(), "1".to_string());
    assert_eq!(storage.to_snapshot(), Ok("{\"a\":\"1\"}".to_string()));
    assert_eq!(Storage::new().to_snapshot(), Ok("{}".to_string()));
}

#[test]
fn snapshot_leaves_out_deadlines_and_transactions() {
    let mut storage = Storage::new();
    storage.set_with_ttl_at("a".to_string(), "1".to_string(), secs(1), at(0));
    storage.begin_transaction();
    storage.add_operation(Operation::Put("b".to_string(), "2".to_string()));
    let snapshot = storage.to_snapshot().unwrap();
    assert_eq!(snapshot, "{\"a\":\"1\"}");
    let mut restored = Storage::from_snapshot(&snapshot).unwrap();
    assert_eq!(restored.commit_transaction(), Err(StorageError::NoActiveTransaction));
    assert_eq!(restored.get("a"), Some(&"1".to_string()));
    assert_eq!(restored.get_at("a", at(u64::MAX)), Some(&"1".to_string()));
}

#[test]
fn snapshot_decodes_json_text() {
    let text = "{ \"k1\": \"v1\", \"quote\\\"d\": \"line\\nbreak\", \"k1\": \"later\" }\n";
    let storage = Storage::from_snapshot(text).unwrap();
    assert_eq!(
        sorted(storage.entries()),
        vec![pair("k1", "later"), pair("quote\"d", "line\nbreak")]
    );
}

#[test]
fn snapshot_round_trips_every_pair() {
    let mut storage = Storage::new();
    storage.set("".to_string(), "empty key".to_string());
    storage.set("uni\u{e9}\u{4e16}".to_string(), "\u{1f600}".to_string());
    storage.set("ctl".to_string(), "\u{0}\t\r\n\\\"".to_string());
    storage.set("k".to_string(), "".to_string());
    let snapshot = storage.to_snapshot().unwrap();
    let restored = Storage::from_snapshot(&snapshot).unwrap();
    assert_eq!(sorted(restored.entries()), sorted(storage.entries()));
    assert_eq!(restored.entries().len(), 4);
}

#[test]
fn snapshot_that_is_not_a_string_map_is_refused() {
    for text in ["", "not json", "[1,2]", "{\"a\":1}", "{\"a\":\"1\"", "{\"a\":\"1\"} x", "null"] {
        assert!(matches!(
            Storage::from_snapshot(text),
            Err(StorageError::SerializationError)
        ));
    }
}

#[test]
fn from_entries_lets_the_later_pair_win() {
    let storage = Storage::from_entries(vec![pair("a", "1"), pair("b", "2"), pair("a", "3")]);
    assert_eq!(sorted(storage.entries()), vec![pair("a", "3"), pair("b", "2")]);
}

#[test]
fn checked_snapshot_hands_out_a_text_that_decodes_to_the_store() {
    let mut storage = Storage::new();
    storage.set("a".to_string(), "1".to_string());
    storage.set("b".to_string(), "2".to_string());
    let text = "{\"b\": \"2\", \"a\": \"1\"}".to_string();
    let encoded: Result<String, serde_json::Error> = Ok(text.clone());
    assert_eq!(storage.checked_snapshot(encoded), Ok(text));
}

#[test]
fn checked_snapshot_refuses_a_text_that_decodes_to_another_map() {
    let mut storage = Storage::new();
    storage.set("a".to_string(), "1".to_string());
    for text in ["{}", "{\"a\":\"2\"}", "{\"b\":\"1\"}", "{\"a\":\"1\",\"b\":\"2\"}", "{\"a\""] {
        let encoded: Result<String, serde_json::Error> = Ok(text.to_string());
        assert_eq!(
            storage.checked_snapshot(encoded),
            Err(StorageError::SerializationError)
        );
    }
}

#[test]
fn checked_snapshot_turns_an_encoder_error_into_a_serialization_error() {
    let storage = Storage::new();
    let encoded: Result<String, serde_json::Error> =
        Err(serde_json::from_str::<String>("?").unwrap_err());
    assert_eq!(
        storage.checked_snapshot(encoded),
        Err(StorageError::SerializationError)
    );
}

#[test]
fn decodes_from_compares_the_decoded_map_with_the_store() {
    let mut storage = Storage::new();
    assert!(storage.decodes_from("{}"));
    assert!(storage.decodes_from(" { } \n"));
    assert!(!storage.decodes_from(""));
    storage.set("k".to_string(), "v".to_string());
    assert!(storage.decodes_from("{\"k\":\"v\"}"));
    assert!(storage.decodes_from("{\"k\":\"x\",\"k\":\"v\"}"));
    assert!(!storage.decodes_from("{}"));
    assert!(!storage.decodes_from("{\"k\":\"w\"}"));
    assert!(!storage.decodes_from("{\"k\":\"v\",\"l\":\"v\"}"));
}
