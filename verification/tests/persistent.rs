use serde_json::Value;
use ten_rust::storage::key_parser::get_value_by_key;
use ten_rust::storage::persistent::{storage_from_text, storage_to_text};

#[test]
fn missing_file_stands_for_an_empty_object() {
    let data = storage_from_text(None).unwrap();
    assert_eq!(data, Value::Object(serde_json::Map::new()));
}

#[test]
fn text_of_a_file_is_read_as_a_document() {
    let data = storage_from_text(Some("{\"graph_ui\": {\"zoom\": [1, 2]}}")).unwrap();
    assert_eq!(
        get_value_by_key(&data, "graph_ui.zoom[1]"),
        Ok(Some(Value::Number(serde_json::Number::from(2u64))))
    );
    assert_eq!(storage_from_text(Some("[]")), Ok(Value::Array(vec![])));
}

#[test]
fn text_that_is_no_json_is_refused_with_a_message() {
    let error = storage_from_text(Some("{\"open\": ")).unwrap_err();
    assert!(!error.message.is_empty());
    assert!(storage_from_text(Some("")).is_err());
}

#[test]
fn document_is_written_as_indented_text_and_read_back() {
    let mut map = serde_json::Map::new();
    map.insert("a".to_string(), Value::Array(vec![Value::Null, Value::Bool(true)]));
    let data = Value::Object(map);
    let text = storage_to_text(&data).unwrap();
    assert_eq!(text, "{\n  \"a\": [\n    null,\n    true\n  ]\n}");
    assert_eq!(storage_from_text(Some(text.as_str())), Ok(data));
}
