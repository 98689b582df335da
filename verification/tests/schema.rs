//! Tool schemas: which keywords are kept, and where the others go.
use omp_headless::json::Json;
use omp_headless::json_repair::parse_json_with_repair;
use omp_headless::schema::normalize_anthropic_tool_schema as norm;

fn json(text: &str) -> Json {
    parse_json_with_repair(text).unwrap()
}

fn at<'a>(value: &'a Json, path: &[&str]) -> &'a Json {
    let mut v = value;
    for key in path {
        v = v.get(key).unwrap();
    }
    v
}

/// Equality up to the order of members.
fn same(a: &Json, b: &Json) -> bool {
    match (a, b) {
        (Json::Object(x), Json::Object(y)) => {
            x.len() == y.len() && x.iter().all(|(k, v)| b.get(k).map_or(false, |w| same(v, w)))
        }
        (Json::Array(x), Json::Array(y)) => x.len() == y.len() && x.iter().zip(y).all(|(v, w)| same(v, w)),
        _ => a == b,
    }
}

fn expect(a: &Json, b: &Json) {
    assert!(same(a, b), "{a:?} is not {b:?}");
}

// SDK whitelist: number / integer

#[test]
fn demotes_range_and_multiple_of_on_number_nodes() {
    let out = norm(&json(r#"{ "type": "object", "properties": { "temperature": { "type": "number", "minimum": 0, "maximum": 1, "exclusiveMinimum": 0, "exclusiveMaximum": 1, "multipleOf": 0.1 } } }"#));
    expect(at(&out, &["properties", "temperature"]), &json(r#"{ "type": "number", "description": "{minimum: 0, maximum: 1, exclusiveMinimum: 0, exclusiveMaximum: 1, multipleOf: 0.1}" }"#));
}

#[test]
fn demotes_range_on_integer_nodes() {
    let out = norm(&json(r#"{ "type": "object", "properties": { "count": { "type": "integer", "minimum": 0, "maximum": 100, "multipleOf": 1 } } }"#));
    expect(at(&out, &["properties", "count"]), &json(r#"{ "type": "integer", "description": "{minimum: 0, maximum: 100, multipleOf: 1}" }"#));
}

#[test]
fn demotes_numeric_range_on_union_type_including_number() {
    let out = norm(&json(r#"{ "type": "object", "properties": { "value": { "type": ["number", "null"], "minimum": 0, "maximum": 10 } } }"#));
    expect(at(&out, &["properties", "value"]), &json(r#"{ "type": ["number", "null"], "description": "{minimum: 0, maximum: 10}" }"#));
}

// SDK whitelist: string

#[test]
fn demotes_pattern_min_max_length_into_description() {
    let out = norm(&json(r#"{ "type": "object", "properties": { "name": { "type": "string", "pattern": "^[a-z]+$", "minLength": 1, "maxLength": 32 } } }"#));
    expect(at(&out, &["properties", "name"]), &json(r#"{ "type": "string", "description": "{pattern: \"^[a-z]+$\", minLength: 1, maxLength: 32}" }"#));
}

#[test]
fn keeps_format_only_when_in_supported_set() {
    let out = norm(&json(r#"{ "type": "object", "properties": { "email": { "type": "string", "format": "email" }, "weird": { "type": "string", "format": "color-hex" } } }"#));
    expect(at(&out, &["properties", "email"]), &json(r#"{ "type": "string", "format": "email" }"#));
    expect(at(&out, &["properties", "weird"]), &json(r#"{ "type": "string", "description": "{format: \"color-hex\"}" }"#));
}

// SDK whitelist: array

#[test]
fn keeps_min_items_only_when_zero_or_one() {
    let out01 = norm(&json(r#"{ "type": "array", "items": { "type": "string" }, "minItems": 1 }"#));
    expect(at(&out01, &["minItems"]), &json("1"));
    assert!(out01.get("description").is_none());

    let out5 = norm(&json(r#"{ "type": "array", "items": { "type": "string" }, "minItems": 5, "maxItems": 10, "uniqueItems": true }"#));
    assert!(out5.get("minItems").is_none());
    assert!(out5.get("maxItems").is_none());
    assert!(out5.get("uniqueItems").is_none());
    expect(at(&out5, &["description"]), &json(r#""{maxItems: 10, uniqueItems: true, minItems: 5}""#));
}

#[test]
fn recurses_into_items_and_prefix_items() {
    let out = norm(&json(r#"{ "type": "array", "items": { "type": "number", "minimum": 0 }, "prefixItems": [{ "type": "string", "minLength": 1 }] }"#));
    expect(at(&out, &["items"]), &json(r#"{ "type": "number", "description": "{minimum: 0}" }"#));
    expect(at(&out, &["prefixItems"]), &json(r#"[{ "type": "string", "description": "{minLength: 1}" }]"#));
}

// SDK whitelist: object

#[test]
fn defaults_additional_properties_false_on_closed_objects() {
    let out = norm(&json(r#"{ "type": "object", "properties": { "a": { "type": "string" } } }"#));
    expect(at(&out, &["additionalProperties"]), &json("false"));
}

#[test]
fn preserves_explicit_open_map_true() {
    let out = norm(&json(r#"{ "type": "object", "additionalProperties": true, "properties": { "a": { "type": "string" } } }"#));
    expect(at(&out, &["additionalProperties"]), &json("true"));
}

#[test]
fn preserves_and_recurses_additional_properties_schema() {
    let out = norm(
        &json(r#"{ "type": "object", "additionalProperties": { "type": "number", "minimum": 0 } }"#),
    );
    expect(at(&out, &["additionalProperties"]), &json(r#"{ "type": "number", "description": "{minimum: 0}" }"#));
}

#[test]
fn open_map_empty_schema_collapses_to_true() {
    // Zod's `z.record(z.string(), z.unknown())` produces `{}`.
    let out = norm(&json(r#"{ "type": "object", "additionalProperties": {} }"#));
    expect(at(&out, &["additionalProperties"]), &json("true"));
}

#[test]
fn demotes_pattern_properties_property_names_min_items_on_objects() {
    let out = norm(&json(r#"{ "type": "object", "properties": { "tag": { "type": "string" } }, "patternProperties": { "^x-": { "type": "string" } }, "propertyNames": { "pattern": "^[a-z]+$" }, "minItems": 1 }"#));
    assert!(out.get("patternProperties").is_none());
    assert!(out.get("propertyNames").is_none());
    assert!(out.get("minItems").is_none());
    let desc = at(&out, &["description"]).as_str().expect("description string");
    assert!(desc.contains("patternProperties"));
    assert!(desc.contains("propertyNames"));
    assert!(desc.contains("minItems"));
}

// Universal preservation

#[test]
fn appends_spilled_keywords_to_existing_description_with_blank_line() {
    let out = norm(&json(r#"{ "type": "object", "properties": { "ratio": { "type": "number", "description": "A ratio", "minimum": 0, "maximum": 1 } } }"#));
    expect(at(&out, &["properties", "ratio"]), &json(r#"{ "type": "number", "description": "A ratio\n\n{minimum: 0, maximum: 1}" }"#));
}

#[test]
fn preserves_universal_keys() {
    let out = norm(&json(r##"{ "$defs": { "Color": { "type": "string", "enum": ["r", "g", "b"] } }, "type": "object", "title": "Sample", "properties": { "ref": { "$ref": "#/$defs/Color" }, "union": { "anyOf": [{ "type": "string" }, { "type": "number" }] }, "choice": { "const": "x" }, "hint": { "type": "string", "default": "anon" } } }"##));
    expect(at(&out, &["title"]), &json(r#""Sample""#));
    expect(at(&out, &["$defs"]), &json(r#"{ "Color": { "type": "string", "enum": ["r", "g", "b"] } }"#));
    expect(at(&out, &["properties", "ref"]), &json(r##"{ "$ref": "#/$defs/Color" }"##));
    expect(at(&out, &["properties", "union", "anyOf"]), &json(r#"[{ "type": "string" }, { "type": "number" }]"#));
    expect(at(&out, &["properties", "choice"]), &json(r#"{ "const": "x" }"#));
    expect(at(&out, &["properties", "hint"]), &json(r#"{ "type": "string", "default": "anon" }"#));
}

// Parity with anthropic-sdk-python transform_schema

#[test]
fn preserves_lone_ref_node() {
    expect(&norm(&json(r##"{ "$ref": "#/components/schemas/SomeSchema" }"##)), &json(r##"{ "$ref": "#/components/schemas/SomeSchema" }"##));
}

#[test]
fn recurses_nested_anyof_variants_and_spills_per_variant() {
    let out = norm(&json(r#"{ "type": "object", "properties": { "value": { "anyOf": [{ "type": "string" }, { "type": "integer", "minimum": 1 }] } } }"#));
    expect(&out, &json(r#"{ "type": "object", "properties": { "value": { "anyOf": [{ "type": "string" }, { "type": "integer", "description": "{minimum: 1}" }] } }, "additionalProperties": false }"#));
}

#[test]
fn keeps_enum_on_string_verbatim() {
    let out = norm(&json(r#"{ "type": "string", "enum": ["foo", "bar"] }"#));
    expect(&out, &json(r#"{ "type": "string", "enum": ["foo", "bar"] }"#));
}

#[test]
fn spills_top_level_anyof_into_description() {
    let out = norm(&json(r#"{ "type": "object", "properties": { "id": { "type": "string" } }, "anyOf": [{ "required": ["id"] }, { "required": ["name"] }] }"#));
    expect(&out, &json(r#"{ "type": "object", "properties": { "id": { "type": "string" } }, "additionalProperties": false, "description": "{anyOf: [{\"required\":[\"id\"]},{\"required\":[\"name\"]}]}" }"#));
}

#[test]
fn spills_top_level_allof_into_description() {
    let out = norm(&json(r#"{ "type": "object", "properties": { "id": { "type": "string" } }, "allOf": [ { "type": "object", "properties": { "name": { "type": "string" } } }, { "type": "object", "properties": { "age": { "type": "integer", "minimum": 0 } } } ] }"#));
    expect(&out, &json(r#"{ "type": "object", "properties": { "id": { "type": "string" } }, "additionalProperties": false, "description": "{allOf: [{\"type\":\"object\",\"properties\":{\"name\":{\"type\":\"string\"}}},{\"type\":\"object\",\"properties\":{\"age\":{\"type\":\"integer\",\"minimum\":0}}}]}" }"#));
}

#[test]
fn spills_oneof_at_root_and_nested() {
    let root =
        norm(&json(r#"{ "oneOf": [{ "type": "string" }, { "type": "integer", "minimum": 1 }] }"#));
    expect(&root, &json(r#"{ "description": "{oneOf: [{\"type\":\"string\"},{\"type\":\"integer\",\"minimum\":1}]}" }"#));

    let nested = norm(&json(r#"{ "type": "object", "properties": { "value": { "oneOf": [{ "type": "string" }, { "type": "integer", "minimum": 1 }] } } }"#));
    expect(&nested, &json(r#"{ "type": "object", "properties": { "value": { "description": "{oneOf: [{\"type\":\"string\"},{\"type\":\"integer\",\"minimum\":1}]}" } }, "additionalProperties": false }"#));
}

#[test]
fn preserves_object_required_and_spills_per_property() {
    let out = norm(&json(r#"{ "type": "object", "properties": { "name": { "type": "string", "default": "John" }, "age": { "type": "integer", "minimum": 0 } }, "required": ["name"], "description": "Person object" }"#));
    expect(&out, &json(r#"{ "type": "object", "description": "Person object", "properties": { "name": { "type": "string", "default": "John" }, "age": { "type": "integer", "description": "{minimum: 0}" } }, "additionalProperties": false, "required": ["name"] }"#));
}

#[test]
fn spills_min_items_gt_one_with_two_newline_preamble() {
    let out = norm(&json(r#"{ "type": "array", "items": { "type": "string" }, "minItems": 2, "description": "A list of strings" }"#));
    expect(&out, &json(r#"{ "type": "array", "description": "A list of strings\n\n{minItems: 2}", "items": { "type": "string" } }"#));
}

#[test]
fn keeps_allowlisted_format_alongside_preserved_default() {
    let out = norm(&json(r#"{ "type": "string", "format": "email", "default": "user@example.com", "description": "User email" }"#));
    expect(&out, &json(r#"{ "type": "string", "description": "User email", "format": "email", "default": "user@example.com" }"#));
}

#[test]
fn passes_bare_string_node_through_unchanged() {
    expect(&norm(&json(r#"{ "type": "string" }"#)), &json(r#"{ "type": "string" }"#));
}

#[test]
fn spills_integer_keywords_in_source_order() {
    let out = norm(&json(r#"{ "type": "integer", "minimum": 1, "maximum": 10, "exclusiveMinimum": 0, "exclusiveMaximum": 20, "description": "A number" }"#));
    expect(&out, &json(r#"{ "type": "integer", "description": "A number\n\n{minimum: 1, maximum: 10, exclusiveMinimum: 0, exclusiveMaximum: 20}" }"#));
}

#[test]
fn passes_boolean_with_description_through_unchanged() {
    let out = norm(&json(r#"{ "type": "boolean", "description": "A flag" }"#));
    expect(&out, &json(r#"{ "type": "boolean", "description": "A flag" }"#));
}

#[test]
fn passes_null_type_node_through_unchanged() {
    expect(&norm(&json(r#"{ "type": "null" }"#)), &json(r#"{ "type": "null" }"#));
}

#[test]
fn does_not_mutate_input_schema() {
    let original = json(r#"{ "type": "object", "properties": { "name": { "type": "string", "default": "John" }, "age": { "type": "integer", "minimum": 0 } }, "required": ["name"], "description": "Person object", "additionalProperties": true }"#);
    let snapshot = original.clone();
    let _ = norm(&original);
    expect(&original, &snapshot);
}

// Extra edge coverage

#[test]
fn recurses_into_defs_and_definitions() {
    let out = norm(&json(r##"{ "type": "object", "$defs": { "Age": { "type": "integer", "minimum": 0 } }, "definitions": { "Name": { "type": "string", "minLength": 1 } }, "properties": { "who": { "$ref": "#/$defs/Age" } } }"##));
    expect(at(&out, &["$defs", "Age"]), &json(r#"{ "type": "integer", "description": "{minimum: 0}" }"#));
    expect(at(&out, &["definitions", "Name"]), &json(r#"{ "type": "string", "description": "{minLength: 1}" }"#));
}

#[test]
fn normalizing_twice_changes_nothing() {
    let schemas = [
        r#"{ "oneOf": [{ "type": "string" }], "properties": { "a": { "type": "string", "format": "regex", "minLength": 1 } } }"#,
        r#"{ "type": ["null", "array"], "minItems": 3, "items": { "properties": {}, "additionalProperties": {} } }"#,
        r#"{ "type": "object", "additionalProperties": { "anyOf": [{ "type": "integer", "minimum": 0 }, true] }, "x": 1 }"#,
        r#"{ "prefixItems": [{ "maximum": 2 }], "$defs": { "d": { "oneOf": [] } }, "description": "d" }"#,
    ];
    for text in schemas {
        let once = norm(&json(text));
        assert_ne!(once, json(text));
        assert_eq!(norm(&once), once);
    }
}
