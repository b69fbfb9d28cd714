use aif_core::node::Node;
use aif_core::paths::collect_paths;
use aif_core::value::JsonValue;
use aif_core::TypeTag;

#[test]
fn tag_names_match_schema_keywords() {
    assert_eq!(TypeTag::Null.as_str(), "null");
    assert_eq!(TypeTag::Boolean.as_str(), "boolean");
    assert_eq!(TypeTag::Integer.as_str(), "integer");
    assert_eq!(TypeTag::Number.as_str(), "number");
    assert_eq!(TypeTag::String.as_str(), "string");
    assert_eq!(TypeTag::Object.as_str(), "object");
    assert_eq!(TypeTag::Array.as_str(), "array");
}

#[test]
fn observing_two_scalars_unions_their_tags() {
    let mut node = Node::empty();
    node.observe(&JsonValue::Int(1));
    node.observe(&JsonValue::Str("x".to_string()));
    let schema = node.to_json_schema();
    match schema {
        JsonValue::Obj(entries) => {
            assert_eq!(entries.len(), 1);
            assert_eq!(entries[0].0, "type");
            assert_eq!(
                entries[0].1,
                JsonValue::Arr(vec![
                    JsonValue::Str("integer".to_string()),
                    JsonValue::Str("string".to_string()),
                ])
            );
        }
        _ => panic!("schema should be an object"),
    }
}

#[test]
fn observing_an_empty_array_leaves_items_absent() {
    let mut node = Node::empty();
    node.observe(&JsonValue::Arr(vec![]));
    let schema = node.to_json_schema();
    assert_eq!(
        schema,
        JsonValue::Obj(vec![("type".to_string(), JsonValue::Str("array".to_string()))])
    );
}

#[test]
fn object_children_are_created_in_sorted_key_order() {
    let mut node = Node::empty();
    node.observe(&JsonValue::Obj(vec![
        ("b".to_string(), JsonValue::Null),
        ("a".to_string(), JsonValue::Bool(true)),
    ]));
    let keys: Vec<&str> = node.properties.iter().map(|(k, _)| k.as_str()).collect();
    assert_eq!(keys, vec!["a", "b"]);
}

#[test]
fn collect_paths_walks_properties_and_items() {
    let schema = JsonValue::Obj(vec![(
        "properties".to_string(),
        JsonValue::Obj(vec![(
            "tags".to_string(),
            JsonValue::Obj(vec![
                ("type".to_string(), JsonValue::Str("array".to_string())),
                (
                    "items".to_string(),
                    JsonValue::Obj(vec![(
                        "type".to_string(),
                        JsonValue::Str("string".to_string()),
                    )]),
                ),
            ]),
        )]),
    )]);
    let mut acc: Vec<String> = Vec::new();
    collect_paths(&schema, "", &mut acc);
    assert_eq!(acc, vec!["tags".to_string(), "tags[]".to_string()]);
}

#[test]
fn collect_paths_tolerates_non_object_fragments() {
    let mut acc: Vec<String> = Vec::new();
    collect_paths(&JsonValue::Int(3), "", &mut acc);
    assert!(acc.is_empty());

    let schema = JsonValue::Obj(vec![(
        "properties".to_string(),
        JsonValue::Str("not an object".to_string()),
    )]);
    collect_paths(&schema, "", &mut acc);
    assert!(acc.is_empty());
}
