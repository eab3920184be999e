use choreo_tools::json::{Json, quote_json, write_json};
use choreo_tools::schema::{
    empty_args_schema, groups_enum_schema, resolve_refs, sanitize_output_schema,
    sanitize_params_schema, sanitize_schema,
};
use serde_json::Value;

fn of_value(v: &Value) -> Json {
    match v {
        Value::Null => Json::Null,
        Value::Bool(b) => Json::Bool(*b),
        Value::Number(n) => Json::Number(n.to_string()),
        Value::String(s) => Json::Text(s.clone()),
        Value::Array(a) => Json::List(a.iter().map(of_value).collect()),
        Value::Object(m) => Json::Object(m.iter().map(|(k, v)| (k.clone(), of_value(v))).collect()),
    }
}

/// The value that a JSON text stands for.
fn json(text: &str) -> Json {
    of_value(&serde_json::from_str(text).expect("valid JSON"))
}

/// A value of the library as serde knows it.
fn value(j: &Json) -> Value {
    serde_json::from_str(&write_json(j)).expect("the library writes valid JSON")
}

fn defs(entries: Vec<(&str, &str)>) -> Vec<(String, Json)> {
    entries.into_iter().map(|(n, t)| (n.to_string(), json(t))).collect()
}

#[test]
fn sanitize_schema_strips_metadata() {
    let input = json(
        r##"{"$schema": "https://json-schema.org/draft/2020-12/schema", "title": "MySchema",
            "$defs": { "Foo": { "type": "string" } }, "type": "object"}"##,
    );
    let result = value(&sanitize_schema(input, false));
    assert!(result.get("$schema").is_none(), "should strip $schema");
    assert!(result.get("title").is_none(), "should strip title");
    assert!(result.get("$defs").is_none(), "should strip $defs");
    assert_eq!(result["type"], "object");
}

#[test]
fn sanitize_schema_inlines_refs() {
    let input = json(
        r##"{"$defs": { "Point": { "type": "object", "properties": { "x": {"type": "integer"} } } },
            "type": "object", "properties": { "location": { "$ref": "#/$defs/Point" } }}"##,
    );
    let result = value(&sanitize_schema(input, false));
    let location = &result["properties"]["location"];
    assert!(location.get("$ref").is_none(), "$ref should be resolved");
    assert_eq!(location["type"], "object");
    assert_eq!(location["properties"]["x"]["type"], "integer");
}

#[test]
fn sanitize_schema_preserves_description_across_ref() {
    let input = json(
        r##"{"$defs": { "Str": { "type": "string" } },
            "items": { "$ref": "#/$defs/Str", "description": "A string item" }}"##,
    );
    let result = value(&sanitize_schema(input, false));
    assert_eq!(result["items"]["type"], "string");
    assert_eq!(result["items"]["description"], "A string item");
}

#[test]
fn sanitize_schema_adds_additional_properties() {
    let input = json(r#"{ "type": "object", "properties": {} }"#);
    let result = value(&sanitize_schema(input, true));
    assert_eq!(result["additionalProperties"], false);
}

#[test]
fn sanitize_schema_skips_additional_properties_when_false() {
    let input = json(r#"{ "type": "string" }"#);
    let result = value(&sanitize_schema(input, false));
    assert!(result.get("additionalProperties").is_none());
}

#[test]
fn sanitize_schema_passthrough_clean_schema() {
    let input = json(r#"{ "type": "integer" }"#);
    let before = value(&input);
    let result = sanitize_schema(input, false);
    assert_eq!(value(&result), before);
}

#[test]
fn sanitize_schema_resolves_refs_in_arrays() {
    let input = json(
        r##"{"$defs": { "Tag": { "type": "string" } }, "type": "array",
            "prefixItems": [ { "$ref": "#/$defs/Tag" }, { "type": "integer" } ]}"##,
    );
    let result = value(&sanitize_schema(input, false));
    assert!(result["prefixItems"][0].get("$ref").is_none());
    assert_eq!(result["prefixItems"][0]["type"], "string");
    assert_eq!(result["prefixItems"][1]["type"], "integer");
}

#[test]
fn sanitize_params_schema_converts_null_to_object() {
    let input = json(r#"{ "type": "null" }"#);
    let result = value(&sanitize_params_schema(input));
    assert_eq!(result["type"], "object");
    assert_eq!(result["properties"], value(&json("{}")));
    assert_eq!(result["additionalProperties"], false);
}

#[test]
fn sanitize_params_schema_preserves_normal_schema() {
    let input = json(r#"{ "type": "object", "properties": { "name": { "type": "string" } } }"#);
    let result = value(&sanitize_params_schema(input));
    assert_eq!(result["type"], "object");
    assert_eq!(result["properties"]["name"]["type"], "string");
    assert_eq!(result["additionalProperties"], false);
}

#[test]
fn sanitize_params_schema_strips_schema_title_defs() {
    let input = json(
        r##"{"$schema": "https://json-schema.org/draft/2020-12/schema", "title": "Args",
            "$defs": { "X": { "type": "string" } }, "type": "object"}"##,
    );
    let result = value(&sanitize_params_schema(input));
    assert!(result.get("$schema").is_none());
    assert!(result.get("title").is_none());
    assert!(result.get("$defs").is_none());
}

#[test]
fn sanitize_output_schema_no_additional_properties() {
    let input = json(r#"{ "type": "string" }"#);
    let result = value(&sanitize_output_schema(input));
    assert_eq!(result["type"], "string");
    assert!(result.get("additionalProperties").is_none());
}

#[test]
fn sanitize_output_schema_strips_metadata() {
    let input = json(
        r##"{"$schema": "https://json-schema.org/draft/2020-12/schema", "title": "Return",
            "type": "integer"}"##,
    );
    let result = value(&sanitize_output_schema(input));
    assert!(result.get("$schema").is_none());
    assert!(result.get("title").is_none());
}

#[test]
fn resolve_refs_basic() {
    let mut v = json(r##"{ "$ref": "#/$defs/MyType" }"##);
    resolve_refs(&mut v, &defs(vec![("MyType", r#"{"type": "string"}"#)]));
    assert_eq!(value(&v), value(&json(r#"{"type": "string"}"#)));
}

#[test]
fn resolve_refs_no_match_unchanged() {
    let original = r##"{ "$ref": "#/$defs/Unknown" }"##;
    let mut v = json(original);
    resolve_refs(&mut v, &vec![]);
    assert_eq!(value(&v), value(&json(original)));
}

#[test]
fn resolve_refs_no_ref_unchanged() {
    let original = r#"{ "type": "object", "properties": {} }"#;
    let mut v = json(original);
    resolve_refs(&mut v, &vec![]);
    assert_eq!(value(&v), value(&json(original)));
}

#[test]
fn resolve_refs_nested_skipped() {
    // References inside a definition stay: only the first level is resolved.
    let mut v = json(r##"{ "$ref": "#/$defs/B" }"##);
    let d = defs(vec![("A", r#"{"type": "string"}"#), ("B", r##"{"$ref": "#/$defs/A"}"##)]);
    resolve_refs(&mut v, &d);
    assert_eq!(value(&v), value(&json(r##"{"$ref": "#/$defs/A"}"##)));
}

#[test]
fn unit_args_tool_schema_is_empty_object() {
    let schema = value(&empty_args_schema());
    assert_eq!(schema["type"], "object");
    assert_eq!(schema["properties"], value(&json("{}")));
    assert_eq!(schema["additionalProperties"], false);
}

#[test]
fn empty_args_schema_is_empty_object() {
    let schema = value(&sanitize_params_schema(json(r#"{"title": "EmptyArgs", "type": "null"}"#)));
    assert_eq!(schema["type"], "object");
    assert_eq!(
        schema["additionalProperties"],
        Value::Bool(false),
        "should forbid extra properties"
    );
}

#[test]
fn a_root_reference_is_replaced_by_its_definition() {
    // What the reference stands for is put in its place, metadata and all.
    let input = json(
        r##"{"$defs": { "R": { "type": "object", "title": "R" } }, "$ref": "#/$defs/R"}"##,
    );
    let result = value(&sanitize_schema(input, false));
    assert_eq!(result["type"], "object");
}

#[test]
fn a_groups_schema_lists_the_names() {
    let schema = value(&groups_enum_schema(vec!["git".into(), "vm".into()], "Groups."));
    assert_eq!(schema["properties"]["groups"]["type"], "array");
    assert_eq!(schema["properties"]["groups"]["items"]["enum"][1], "vm");
    assert_eq!(schema["properties"]["groups"]["description"], "Groups.");
}

#[test]
fn quoted_text_reads_back() {
    for s in ["plain", "a\"b\\c", "\u{0}\u{1f}\u{7f}\u{2028}", "tab\tnl\ncr\r", "é😀"] {
        let quoted = quote_json(s);
        assert_eq!(quoted, serde_json::to_string(s).unwrap());
        assert_eq!(serde_json::from_str::<String>(&quoted).unwrap(), s);
    }
    assert_eq!(quote_json("a\u{8}\u{c}\u{1}"), r#""a\b\f\u0001""#);
}

#[test]
fn json_is_written_compactly() {
    let j = json(r#"{"a": [1, true, null], "b": {"c": "d"}}"#);
    assert_eq!(write_json(&j), r#"{"a":[1,true,null],"b":{"c":"d"}}"#);
}
