use aif_core::{diff_schemas_rs, infer_schema_rs, DiffError, InferError};
use serde_json::Value;

fn parse(out: &str) -> Value {
    serde_json::from_str(out).unwrap()
}

fn string_set(v: &Value) -> Vec<&str> {
    v.as_array()
        .unwrap()
        .iter()
        .filter_map(|s| s.as_str())
        .collect()
}

#[test]
fn infer_simple_schema_object() {
    let samples = vec![
        r#"{"id":1,"name":"Alice","tags":["a","b"]}"#.to_string(),
        r#"{"id":2,"name":"Bob","tags":[]}"#.to_string(),
    ];
    let out = infer_schema_rs(&samples).expect("infer ok");
    let v: Value = serde_json::from_str(&out).unwrap();

    assert_eq!(v["type"], "object");
    assert!(v["properties"].get("id").is_some());
    assert!(v["properties"].get("name").is_some());
    assert!(v["properties"].get("tags").is_some());
}

#[test]
fn diff_detects_added_removed_common() {
    let a = r#"{
      "$schema":"https://json-schema.org/draft/2020-12/schema",
      "type":"object",
      "properties":{"id":{"type":"integer"}}
    }"#
    .to_string();

    let b = r#"{
      "$schema":"https://json-schema.org/draft/2020-12/schema",
      "type":"object",
      "properties":{
        "id":{"type":"integer"},
        "name":{"type":"string"},
        "tags":{"type":"array","items":{"type":"string"}}
      }
    }"#
    .to_string();

    let out = diff_schemas_rs(&a, &b).expect("diff ok");
    let d: Value = serde_json::from_str(&out).unwrap();

    let added = d["added"].as_array().unwrap();
    let added_set: std::collections::HashSet<_> =
        added.iter().filter_map(|s| s.as_str()).collect();
    assert!(added_set.contains("name"));
    assert!(added_set.contains("tags"));

    let removed = d["removed"].as_array().unwrap();
    assert!(removed.is_empty());

    let common = d["common"].as_array().unwrap();
    assert!(common.iter().any(|s| s.as_str() == Some("id")));
}

#[test]
fn roundtrip_infer_then_diff() {
    let s1 = vec![r#"{"a":{"x":1}}"#.to_string()];
    let s2 = vec![r#"{"a":{"x":1,"y":"u"},"b":[1,2]}"#.to_string()];

    let a = infer_schema_rs(&s1).unwrap();
    let b = infer_schema_rs(&s2).unwrap();
    let out = diff_schemas_rs(&a, &b).unwrap();
    let d: Value = serde_json::from_str(&out).unwrap();
    let added = d["added"].as_array().unwrap();

    let added_set: std::collections::HashSet<_> =
        added.iter().filter_map(|s| s.as_str()).collect();
    assert!(added_set.contains("a.y"));
    assert!(added_set.contains("b"));
}

#[test]
fn infer_then_diff_works() {
    let s1 = vec![r#"{"id":1,"name":"Alice"}"#.to_string()];
    let s2 = vec![r#"{"id":2,"name":"Bob","tags":["x"]}"#.to_string()];
    let a = infer_schema_rs(&s1).unwrap();
    let b = infer_schema_rs(&s2).unwrap();
    let d = diff_schemas_rs(&a, &b).unwrap();
    assert!(d.contains("added"));
}

#[test]
fn union_of_types_at_one_path_is_sorted() {
    let samples = vec![r#"{"k":1}"#.to_string(), r#"{"k":"x"}"#.to_string()];
    let out = infer_schema_rs(&samples).unwrap();
    let v = parse(&out);
    let types = &v["properties"]["k"]["type"];
    assert_eq!(string_set(types), vec!["integer", "string"]);
}

#[test]
fn integer_and_number_are_distinct() {
    let out = infer_schema_rs(&vec![r#"{"a":1}"#.to_string()]).unwrap();
    assert_eq!(parse(&out)["properties"]["a"]["type"], "integer");

    let out = infer_schema_rs(&vec![r#"{"a":1.5}"#.to_string()]).unwrap();
    assert_eq!(parse(&out)["properties"]["a"]["type"], "number");

    // A token with a fractional form decodes to a float and is classified
    // `number`, even when it is mathematically integral.
    let out = infer_schema_rs(&vec![r#"{"a":1.0}"#.to_string()]).unwrap();
    assert_eq!(parse(&out)["properties"]["a"]["type"], "number");

    // A magnitude beyond i64 that still fits u64 stays an integer.
    let out = infer_schema_rs(&vec![r#"{"a":18446744073709551615}"#.to_string()]).unwrap();
    assert_eq!(parse(&out)["properties"]["a"]["type"], "integer");
}

#[test]
fn empty_array_has_no_items_key() {
    let out = infer_schema_rs(&vec![r#"{"a":[]}"#.to_string()]).unwrap();
    let v = parse(&out);
    assert_eq!(v["properties"]["a"]["type"], "array");
    assert!(v["properties"]["a"].get("items").is_none());
}

#[test]
fn heterogeneous_array_unions_item_types() {
    let out = infer_schema_rs(&vec![r#"{"a":[1,"x"]}"#.to_string()]).unwrap();
    let v = parse(&out);
    let types = &v["properties"]["a"]["items"]["type"];
    assert_eq!(string_set(types), vec!["integer", "string"]);
}

#[test]
fn nested_properties_linearize_into_dotted_paths() {
    let schema = r#"{"properties":{"a":{"properties":{"x":{"type":"integer"}}}}}"#;
    let out = diff_schemas_rs(schema, schema).unwrap();
    let d = parse(&out);
    let mut common = string_set(&d["common"]);
    common.sort();
    assert_eq!(common, vec!["a", "a.x"]);
    assert!(d["added"].as_array().unwrap().is_empty());
    assert!(d["removed"].as_array().unwrap().is_empty());
}

#[test]
fn array_property_contributes_both_paths() {
    let schema = r#"{"properties":{"tags":{"type":"array","items":{"type":"string"}}}}"#;
    let out = diff_schemas_rs(schema, "{}").unwrap();
    let d = parse(&out);
    let mut removed = string_set(&d["removed"]);
    removed.sort();
    assert_eq!(removed, vec!["tags", "tags[]"]);
    assert!(d["added"].as_array().unwrap().is_empty());
    assert!(d["common"].as_array().unwrap().is_empty());
}

#[test]
fn end_to_end_infer_and_diff() {
    let both = vec![
        r#"{"id":1,"name":"Alice"}"#.to_string(),
        r#"{"id":2,"name":"Bob","tags":["x"]}"#.to_string(),
    ];
    let out = infer_schema_rs(&both).unwrap();
    let v = parse(&out);
    let props = v["properties"].as_object().unwrap();
    assert_eq!(props.len(), 3);
    assert_eq!(v["properties"]["id"]["type"], "integer");
    assert_eq!(v["properties"]["name"]["type"], "string");
    assert_eq!(v["properties"]["tags"]["type"], "array");
    assert_eq!(v["properties"]["tags"]["items"]["type"], "string");

    let one = vec![r#"{"id":1,"name":"Alice"}"#.to_string()];
    let a = infer_schema_rs(&one).unwrap();
    let d = parse(&diff_schemas_rs(&a, &out).unwrap());
    let mut added = string_set(&d["added"]);
    added.sort();
    assert_eq!(added, vec!["tags", "tags[]"]);
    assert!(d["removed"].as_array().unwrap().is_empty());
    let mut common = string_set(&d["common"]);
    common.sort();
    assert_eq!(common, vec!["id", "name"]);
}

#[test]
fn invalid_sample_fails_with_parse_error() {
    let r = infer_schema_rs(&vec!["not json".to_string()]);
    match r {
        Err(InferError::ParseError(msg)) => assert!(msg.starts_with("Invalid JSON: ")),
        _ => panic!("expected a parse failure"),
    }
}

#[test]
fn invalid_side_a_is_identified() {
    let r = diff_schemas_rs("not json", "{}");
    match r {
        Err(DiffError::ParseErrorA(msg)) => assert!(msg.contains("schema A parse error")),
        _ => panic!("expected a parse failure on side A"),
    }
    let r = diff_schemas_rs("{}", "not json");
    assert!(matches!(r, Err(DiffError::ParseErrorB(_))));
}

#[test]
fn sample_order_does_not_change_the_schema() {
    let fwd = vec![
        r#"{"a":1,"b":[true]}"#.to_string(),
        r#"{"a":"x","c":{"d":null}}"#.to_string(),
    ];
    let rev = vec![fwd[1].clone(), fwd[0].clone()];
    let va = parse(&infer_schema_rs(&fwd).unwrap());
    let vb = parse(&infer_schema_rs(&rev).unwrap());
    assert_eq!(va, vb);
}
