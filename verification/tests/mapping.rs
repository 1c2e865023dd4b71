use directory_flattener::mapping::DirectoryMapping;

#[test]
fn new_mapping_is_empty() {
    let table = DirectoryMapping::new();
    assert_eq!(table.len(), 0);
    assert!(table.is_empty());
    assert!(!table.contains_key("a"));
    assert_eq!(table.get("a"), None);
    assert!(table.keys().is_empty());
    assert!(table.entries().is_empty());
}

#[test]
fn insert_adds_a_key_with_its_value() {
    let mut table = DirectoryMapping::new();
    assert_eq!(table.insert("id1.ext".to_string(), "a/one.ext".to_string()), None);
    assert_eq!(table.insert("id2.ext".to_string(), "b/two.ext".to_string()), None);
    assert_eq!(table.len(), 2);
    assert!(!table.is_empty());
    assert!(table.contains_key("id1.ext"));
    assert!(!table.contains_key("id3.ext"));
    assert_eq!(table.get("id1.ext"), Some(&"a/one.ext".to_string()));
    assert_eq!(table.get("id2.ext"), Some(&"b/two.ext".to_string()));
    assert_eq!(table.get("id3.ext"), None);
}

#[test]
fn insert_under_a_present_key_replaces_the_value() {
    let mut table = DirectoryMapping::new();
    table.insert("id1.ext".to_string(), "a/one.ext".to_string());
    table.insert("id2.ext".to_string(), "b/two.ext".to_string());
    let previous = table.insert("id1.ext".to_string(), "c/three.ext".to_string());
    assert_eq!(previous, Some("a/one.ext".to_string()));
    assert_eq!(table.len(), 2);
    assert_eq!(table.get("id1.ext"), Some(&"c/three.ext".to_string()));
    assert_eq!(table.get("id2.ext"), Some(&"b/two.ext".to_string()));
}

#[test]
fn keys_are_pairwise_distinct() {
    let mut table = DirectoryMapping::new();
    for key in ["k1", "k2", "k1", "k3", "k2", "k1"] {
        table.insert(key.to_string(), "v".to_string());
    }
    let keys = table.keys();
    assert_eq!(keys, vec!["k1".to_string(), "k2".to_string(), "k3".to_string()]);
    assert_eq!(table.len(), 3);
    for i in 0..keys.len() {
        for j in (i + 1)..keys.len() {
            assert_ne!(keys[i], keys[j]);
        }
    }
}

#[test]
fn entries_hold_each_key_with_its_last_value() {
    let mut table = DirectoryMapping::new();
    table.insert("k1".to_string(), "v1".to_string());
    table.insert("k2".to_string(), "v2".to_string());
    table.insert("k1".to_string(), "v3".to_string());
    assert_eq!(
        table.entries(),
        &vec![("k1".to_string(), "v3".to_string()), ("k2".to_string(), "v2".to_string())]
    );
}
