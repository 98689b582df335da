//! Reading JSON that is not quite JSON.
use omp_headless::json::{Json, JsonNumber};
use omp_headless::json_repair::{js_number, parse_json_with_repair, relax_json};

fn json(text: &str) -> Json {
    let value: serde_json::Value = serde_json::from_str(text).unwrap();
    outside(&value)
}

fn outside(value: &serde_json::Value) -> Json {
    match value {
        serde_json::Value::Null => Json::Null,
        serde_json::Value::Bool(b) => Json::Bool(*b),
        serde_json::Value::Number(n) => Json::Number(match (n.as_u64(), n.as_i64()) {
            (Some(u), _) => JsonNumber::PosInt(u),
            (_, Some(i)) => JsonNumber::NegInt(i),
            _ => JsonNumber::Float(n.to_string()),
        }),
        serde_json::Value::String(s) => Json::String(s.clone()),
        serde_json::Value::Array(v) => Json::Array(v.iter().map(outside).collect()),
        serde_json::Value::Object(o) => Json::Object(o.iter().map(|(k, v)| (k.clone(), outside(v))).collect()),
    }
}

// fast path: valid JSON needs no repair

#[test]
fn strict_json_passes_through_unchanged() {
    let value = parse_json_with_repair(r#"{"a":1,"b":["x",true,null],"c":{"d":2.5}}"#).unwrap();
    assert_eq!(value, json(r#"{"a":1,"b":["x",true,null],"c":{"d":2.5}}"#));
}

#[test]
fn integers_stay_integers_on_fast_path() {
    let value = parse_json_with_repair("42").unwrap();
    assert_eq!(value, json("42"));
    assert!(matches!(value, Json::Number(JsonNumber::PosInt(42))), "must not float-widen a strict integer");
}

// repair succeeds: malformed texts

#[test]
fn trailing_comma_is_repaired() {
    let value = parse_json_with_repair(r#"{"a":1,"b":2,}"#).unwrap();
    assert_eq!(value, json(r#"{"a":1,"b":2}"#));
}

#[test]
fn single_quotes_and_unquoted_keys_are_repaired() {
    let value = parse_json_with_repair("{path: 'src/main.rs', ok: True}").unwrap();
    assert_eq!(value, json(r#"{"path":"src/main.rs","ok":true}"#));
}

#[test]
fn python_literals_are_repaired() {
    let value = parse_json_with_repair(r#"{"a":True,"b":False,"c":None}"#).unwrap();
    assert_eq!(value, json(r#"{"a":true,"b":false,"c":null}"#));
}

#[test]
fn apostrophe_in_single_quoted_string_recovers() {
    let value = parse_json_with_repair("{'msg': 'it's fine'}").unwrap();
    assert_eq!(value, json(r#"{"msg":"it's fine"}"#));
}

#[test]
fn comments_are_stripped() {
    let value =
        parse_json_with_repair("{\n// leading\n\"a\": 1 /* inline */, \"b\": 2\n}").unwrap();
    assert_eq!(value, json(r#"{"a":1,"b":2}"#));
}

#[test]
fn unquoted_bareword_value_recovers_as_string() {
    let value = parse_json_with_repair("{\"paths\": packages/foo/*\n}").unwrap();
    assert_eq!(value, json(r#"{"paths":"packages/foo/*"}"#));
}

#[test]
fn raw_control_char_inside_string_is_kept_literal() {
    // A raw newline inside a double-quoted string is invalid strict JSON but
    // the relaxed parser keeps it.
    let value = parse_json_with_repair("{\"a\": \"line1\nline2\"}").unwrap();
    assert_eq!(value, json(r#"{"a":"line1\nline2"}"#));
}

// repair fails: truncation / non-finite → Err (→ fallback shape)

#[test]
fn truncated_object_is_unrepairable() {
    // A truncated buffer is not closed.
    assert!(parse_json_with_repair(r#"{"a": "untermin"#).is_err());
}

#[test]
fn non_finite_bareword_is_rejected() {
    assert!(parse_json_with_repair(r#"{"n": NaN}"#).is_err());
    assert!(parse_json_with_repair(r#"{"n": Infinity}"#).is_err());
}

#[test]
fn trailing_garbage_after_value_is_rejected() {
    assert!(parse_json_with_repair(r#"{"a":1} extra"#).is_err());
}

#[test]
fn missing_comma_between_fields_is_rejected() {
    // A missed comma would otherwise silently swallow the next field via the
    // unquoted-value recovery; the bareword `:` guard rejects it instead.
    assert!(parse_json_with_repair(r#"{"a": foo "b": 1}"#).is_err());
}

// numbers

#[test]
fn numbers_have_the_meaning_of_the_script() {
    assert_eq!(js_number("0x1F"), Some(JsonNumber::PosInt(31)));
    assert_eq!(js_number("-7"), Some(JsonNumber::NegInt(-7)));
    assert_eq!(js_number("1.50"), Some(JsonNumber::Float("1.5".to_string())));
    assert_eq!(js_number("1e400"), None);
    assert_eq!(js_number("abc"), None);
}

#[test]
fn relaxed_reading_keeps_floats_and_negatives() {
    assert_eq!(parse_json_with_repair("{a: -2, b: 2.50,}").unwrap(), json(r#"{"a":-2,"b":2.5}"#));
}

#[test]
fn repeated_key_keeps_its_place_and_takes_the_later_value() {
    assert_eq!(
        relax_json("{a: 1, b: 2, a: 3}").unwrap(),
        Json::Object(vec![
            ("a".to_string(), Json::Number(JsonNumber::PosInt(3))),
            ("b".to_string(), Json::Number(JsonNumber::PosInt(2))),
        ])
    );
}

#[test]
fn escapes_are_read_in_relaxed_strings() {
    assert_eq!(relax_json(r#"{'a': 'x\u0041\n\t'}"#).unwrap(), json(r#"{"a":"xA\n\t"}"#));
}

#[test]
fn strict_text_is_not_repaired() {
    for text in ["[]", "{}", "[1,2.5,-3]", "\"a\"", "null", "true", "{\"a\":{\"b\":[null]}}"] {
        assert_eq!(parse_json_with_repair(text).unwrap(), json(text));
    }
}
