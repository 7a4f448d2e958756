use kv_store::db::index::Index;

#[test]
fn test_add_get() {
    let mut index = Index::new();
    index.add("key1".to_string(), "value1".to_string());
    index.add("key1".to_string(), "value2".to_string());

    let values = index.get("key1").unwrap();
    assert!(values.contains(&"value1".to_string()));
    assert!(values.contains(&"value2".to_string()));
}

#[test]
fn test_remove() {
    let mut index = Index::new();
    index.add("key1".to_string(), "value1".to_string());
    index.add("key1".to_string(), "value2".to_string());

    index.remove("key1", "value1");
    let values = index.get("key1").unwrap();
    assert!(!values.contains(&"value1".to_string()));
    assert!(values.contains(&"value2".to_string()));
}

#[test]
fn index_get_of_unknown_key_is_absent() {
    let index = Index::new();
    assert_eq!(index.get("nothing"), None);
}

#[test]
fn index_keeps_duplicates_in_insertion_order() {
    let mut index = Index::new();
    index.add("k".to_string(), "b".to_string());
    index.add("k".to_string(), "a".to_string());
    index.add("k".to_string(), "b".to_string());
    index.add("other".to_string(), "z".to_string());
    assert_eq!(
        index.get("k"),
        Some(&vec!["b".to_string(), "a".to_string(), "b".to_string()])
    );
    assert_eq!(index.get("other"), Some(&vec!["z".to_string()]));
}

#[test]
fn index_remove_takes_out_every_occurrence_and_keeps_order() {
    let mut index = Index::new();
    for value in ["x", "a", "x", "b", "x"] {
        index.add("k".to_string(), value.to_string());
    }
    index.remove("k", "x");
    assert_eq!(index.get("k"), Some(&vec!["a".to_string(), "b".to_string()]));
}

#[test]
fn index_remove_of_last_value_leaves_an_empty_list() {
    let mut index = Index::new();
    index.add("k".to_string(), "only".to_string());
    index.remove("k", "only");
    assert_eq!(index.get("k"), Some(&Vec::<String>::new()));
}

#[test]
fn index_remove_of_absent_key_changes_nothing() {
    let mut index = Index::new();
    index.add("k".to_string(), "v".to_string());
    index.remove("missing", "v");
    assert_eq!(index.get("missing"), None);
    assert_eq!(index.get("k"), Some(&vec!["v".to_string()]));
}

#[test]
fn index_remove_of_unlisted_value_changes_nothing() {
    let mut index = Index::new();
    index.add("k".to_string(), "v1".to_string());
    index.add("k".to_string(), "v2".to_string());
    index.remove("k", "v3");
    assert_eq!(index.get("k"), Some(&vec!["v1".to_string(), "v2".to_string()]));
}

#[test]
fn index_keys_are_compared_by_content() {
    let mut index = Index::new();
    index.add("".to_string(), "empty".to_string());
    index.add("a".to_string(), "one".to_string());
    index.add("ab".to_string(), "two".to_string());
    assert_eq!(index.get(""), Some(&vec!["empty".to_string()]));
    assert_eq!(index.get("a"), Some(&vec!["one".to_string()]));
    assert_eq!(index.get("ab"), Some(&vec!["two".to_string()]));
    assert_eq!(index.get("b"), None);
}
