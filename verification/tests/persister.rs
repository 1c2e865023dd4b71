use std::collections::BTreeMap;

use directory_flattener::mapping::DirectoryMapping;
use directory_flattener::persister::{
    mapping_document, save_dir_mapping, MappingDocument, MappingError, MAPPING_FILE_NAME,
};

#[test]
fn mapping_file_name_is_fixed() {
    assert_eq!(MAPPING_FILE_NAME, "mapping.json");
}

#[test]
fn save_dir_mapping_of_an_empty_table_is_an_empty_object() {
    let document = save_dir_mapping("/out/pack1", &DirectoryMapping::new()).unwrap();
    assert_eq!(document.path, "/out/pack1/mapping.json");
    assert_eq!(document.contents, "{}");
    let parsed: BTreeMap<String, String> = serde_json::from_str(&document.contents).unwrap();
    assert!(parsed.is_empty());
}

#[test]
fn save_dir_mapping_pretty_prints_one_member_per_entry() {
    let mut table = DirectoryMapping::new();
    table.insert("id1.SC2Replay".to_string(), "a/game1.SC2Replay".to_string());
    let document = save_dir_mapping("/out/pack1", &table).unwrap();
    assert_eq!(document.path, "/out/pack1/mapping.json");
    assert_eq!(document.contents, "{\n  \"id1.SC2Replay\": \"a/game1.SC2Replay\"\n}");
}

#[test]
fn save_dir_mapping_orders_members_by_key() {
    let mut forwards = DirectoryMapping::new();
    forwards.insert("a".to_string(), "1".to_string());
    forwards.insert("b".to_string(), "2".to_string());
    let mut backwards = DirectoryMapping::new();
    backwards.insert("b".to_string(), "2".to_string());
    backwards.insert("a".to_string(), "1".to_string());
    let first = save_dir_mapping("out", &forwards).unwrap();
    let second = save_dir_mapping("out", &backwards).unwrap();
    assert_eq!(first.contents, "{\n  \"a\": \"1\",\n  \"b\": \"2\"\n}");
    assert_eq!(first, second);
}

#[test]
fn save_dir_mapping_round_trips_through_a_json_parser() {
    let mut table = DirectoryMapping::new();
    table.insert("id1.x".to_string(), "a/\"quoted\".x".to_string());
    table.insert("id2.x".to_string(), "b\\c/ünï.x".to_string());
    table.insert("id1.x".to_string(), "replaced/one.x".to_string());
    let document = save_dir_mapping("out", &table).unwrap();
    let parsed: BTreeMap<String, String> = serde_json::from_str(&document.contents).unwrap();
    let mut expected = BTreeMap::new();
    expected.insert("id1.x".to_string(), "replaced/one.x".to_string());
    expected.insert("id2.x".to_string(), "b\\c/ünï.x".to_string());
    assert_eq!(parsed, expected);
}

#[test]
fn mapping_document_takes_the_serialized_text() {
    let document = mapping_document("/out/p", Ok("{}".to_string()));
    assert_eq!(
        document,
        Ok(MappingDocument { path: "/out/p/mapping.json".to_string(), contents: "{}".to_string() })
    );
}

#[test]
fn mapping_document_reports_a_refusal() {
    let refusal = serde_json::from_str::<bool>("nonsense").unwrap_err();
    assert_eq!(mapping_document("/out/p", Err(refusal)), Err(MappingError::Serialization));
}
