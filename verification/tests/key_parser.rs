use serde_json::Value;
use ten_rust::storage::key_parser::{
    get_value_by_key, parse_key, set_value_by_key, split_key, KeyError, KeySegment,
};

fn object(members: Vec<(&str, Value)>) -> Value {
    let mut map = serde_json::Map::new();
    for (key, value) in members {
        map.insert(key.to_string(), value);
    }
    Value::Object(map)
}

fn text(value: &str) -> Value {
    Value::String(value.to_string())
}

fn number(value: u64) -> Value {
    Value::Number(serde_json::Number::from(value))
}

#[test]
fn test_parse_simple_key() {
    let result = parse_key("graph_ui").unwrap();
    assert_eq!(result.len(), 1);
    match &result[0] {
        KeySegment::Object(name) => assert_eq!(name, "graph_ui"),
        _ => panic!("Expected object segment"),
    }
}

#[test]
fn test_parse_nested_key() {
    let result = parse_key("graph_ui.test_graph").unwrap();
    assert_eq!(result.len(), 2);
    match &result[0] {
        KeySegment::Object(name) => assert_eq!(name, "graph_ui"),
        _ => panic!("Expected object segment"),
    }
    match &result[1] {
        KeySegment::Object(name) => assert_eq!(name, "test_graph"),
        _ => panic!("Expected object segment"),
    }
}

#[test]
fn test_parse_array_key() {
    let result = parse_key("nodes[0].position").unwrap();
    assert_eq!(result.len(), 2);
    match &result[0] {
        KeySegment::Array(name, index) => {
            assert_eq!(name, "nodes");
            assert_eq!(*index, 0);
        }
        _ => panic!("Expected array segment"),
    }
    match &result[1] {
        KeySegment::Object(name) => assert_eq!(name, "position"),
        _ => panic!("Expected object segment"),
    }
}

#[test]
fn test_invalid_key_uppercase() {
    assert!(parse_key("Graph_ui").is_err());
}

#[test]
fn test_invalid_key_special_chars() {
    assert!(parse_key("graph-ui").is_err());
}

#[test]
fn test_get_value_simple() {
    let data = object(vec![("graph_ui", object(vec![("test", text("value"))]))]);
    let result = get_value_by_key(&data, "graph_ui").unwrap();
    assert_eq!(result, Some(object(vec![("test", text("value"))])));
}

#[test]
fn test_get_value_nested() {
    let data = object(vec![("graph_ui", object(vec![("test", text("value"))]))]);
    let result = get_value_by_key(&data, "graph_ui.test").unwrap();
    assert_eq!(result, Some(text("value")));
}

#[test]
fn test_get_value_array() {
    let data = object(vec![(
        "nodes",
        Value::Array(vec![
            object(vec![("x", number(10))]),
            object(vec![("x", number(20))]),
        ]),
    )]);
    let result = get_value_by_key(&data, "nodes[1].x").unwrap();
    assert_eq!(result, Some(number(20)));
}

#[test]
fn test_set_value_simple() {
    let mut data = object(vec![]);
    set_value_by_key(&mut data, "test", text("value")).unwrap();
    assert_eq!(data, object(vec![("test", text("value"))]));
}

#[test]
fn test_set_value_nested() {
    let mut data = object(vec![]);
    set_value_by_key(&mut data, "graph_ui.test", text("value")).unwrap();
    assert_eq!(
        data,
        object(vec![("graph_ui", object(vec![("test", text("value"))]))])
    );
}

#[test]
fn test_set_value_array() {
    let mut data = object(vec![]);
    set_value_by_key(&mut data, "nodes[1].x", number(20)).unwrap();
    assert_eq!(
        data,
        object(vec![(
            "nodes",
            Value::Array(vec![Value::Null, object(vec![("x", number(20))])])
        )])
    );
}

#[test]
fn split_key_keeps_empty_parts() {
    assert_eq!(split_key("a.b"), vec!["a", "b"]);
    assert_eq!(split_key("abc"), vec!["abc"]);
    assert_eq!(split_key(""), vec![""]);
    assert_eq!(split_key("."), vec!["", ""]);
    assert_eq!(split_key("a..b."), vec!["a", "", "b", ""]);
    assert_eq!(split_key(".é[1]"), vec!["", "é[1]"]);
}

#[test]
fn each_key_error_has_its_input() {
    assert_eq!(parse_key(""), Err(KeyError::InvalidCharacters));
    assert_eq!(parse_key("a b"), Err(KeyError::InvalidCharacters));
    assert_eq!(parse_key("a..b"), Err(KeyError::EmptySegment));
    assert_eq!(parse_key(".a"), Err(KeyError::EmptySegment));
    assert_eq!(parse_key("a."), Err(KeyError::EmptySegment));
    assert_eq!(
        parse_key("a.[]"),
        Err(KeyError::InvalidSegment("[]".to_string()))
    );
    assert_eq!(
        parse_key("a[99999999999999999999999999]"),
        Err(KeyError::InvalidIndex)
    );
    assert_eq!(
        KeyError::InvalidSegment("[]".to_string()).to_string(),
        "Invalid key segment: []"
    );
    assert_eq!(KeyError::EmptySegment.to_string(), "Empty key segment found");
    assert_eq!(KeyError::InvalidIndex.to_string(), "Invalid array index");
}

#[test]
fn a_part_denotes_the_first_name_in_it() {
    assert_eq!(
        parse_key("a[12].b_2[007]"),
        Ok(vec![
            KeySegment::Array("a".to_string(), 12),
            KeySegment::Array("b_2".to_string(), 7),
        ])
    );
    assert_eq!(
        parse_key("a[x]"),
        Ok(vec![KeySegment::Object("a".to_string())])
    );
    assert_eq!(
        parse_key("[0]abc"),
        Ok(vec![KeySegment::Object("0".to_string())])
    );
    assert_eq!(
        parse_key("18446744073709551615"),
        Ok(vec![KeySegment::Object("18446744073709551615".to_string())])
    );
}

#[test]
fn get_gives_none_where_the_key_leads_nowhere() {
    let data = object(vec![
        ("a", object(vec![("b", number(1))])),
        ("list", Value::Array(vec![number(5)])),
        ("scalar", number(7)),
    ]);
    assert_eq!(get_value_by_key(&data, "a.b"), Ok(Some(number(1))));
    assert_eq!(get_value_by_key(&data, "a.c"), Ok(None));
    assert_eq!(get_value_by_key(&data, "a.b.c"), Ok(None));
    assert_eq!(get_value_by_key(&data, "list[0]"), Ok(Some(number(5))));
    assert_eq!(get_value_by_key(&data, "list[1]"), Ok(None));
    assert_eq!(get_value_by_key(&data, "scalar[0]"), Ok(None));
    assert_eq!(get_value_by_key(&data, "missing[0]"), Ok(None));
    assert_eq!(get_value_by_key(&number(3), "a"), Ok(None));
    assert_eq!(
        get_value_by_key(&data, "A"),
        Err(KeyError::InvalidCharacters)
    );
}

#[test]
fn set_replaces_a_root_that_is_no_object() {
    let mut data = number(3);
    set_value_by_key(&mut data, "a", number(1)).unwrap();
    assert_eq!(data, object(vec![("a", number(1))]));
}

#[test]
fn set_keeps_what_is_beside_the_way() {
    let mut data = object(vec![
        ("keep", text("me")),
        (
            "list",
            Value::Array(vec![number(1), object(vec![("old", number(2))]), number(3)]),
        ),
    ]);
    set_value_by_key(&mut data, "list[1].new", number(9)).unwrap();
    set_value_by_key(&mut data, "list[0].made", number(8)).unwrap();
    set_value_by_key(&mut data, "list[4]", text("end")).unwrap();
    assert_eq!(
        data,
        object(vec![
            ("keep", text("me")),
            (
                "list",
                Value::Array(vec![
                    object(vec![("made", number(8))]),
                    object(vec![("old", number(2)), ("new", number(9))]),
                    number(3),
                    Value::Null,
                    text("end"),
                ])
            ),
        ])
    );
}

#[test]
fn set_leaves_alone_what_is_in_the_way() {
    let given = object(vec![("scalar", number(7))]);
    let mut data = given.clone();
    set_value_by_key(&mut data, "scalar.below", number(1)).unwrap();
    assert_eq!(data, given);
    set_value_by_key(&mut data, "scalar[2]", number(1)).unwrap();
    assert_eq!(data, given);
    assert_eq!(
        set_value_by_key(&mut data, "Bad", number(1)),
        Err(KeyError::InvalidCharacters)
    );
    assert_eq!(data, given);
}

#[test]
fn what_is_written_into_an_empty_document_is_found_again() {
    for key in ["a", "a.b.c", "list[3]", "list[2].x[0].y", "a[0][1]"] {
        for start in [object(vec![]), Value::Null, number(7)] {
            let mut data = start;
            set_value_by_key(&mut data, key, text("written")).unwrap();
            assert_eq!(
                get_value_by_key(&data, key),
                Ok(Some(text("written"))),
                "for {key:?}"
            );
        }
    }
}
