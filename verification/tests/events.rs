//! The event builder and the shared canonical representation, driven
//! directly with hand-made event sequences.

use toon::encode;
use toon::events::{build_node_from_events, node_to_json};
use toon::{JsonStreamEvent, JsonValue, StringOrNumberOrBoolOrNull, ToonError};

fn key(k: &str) -> JsonStreamEvent {
    JsonStreamEvent::Key {
        key: k.to_string(),
        was_quoted: false,
    }
}

fn prim_num(n: &str) -> JsonStreamEvent {
    JsonStreamEvent::Primitive {
        value: StringOrNumberOrBoolOrNull::Number(n.to_string()),
    }
}

#[test]
fn builder_reconstructs_a_tree() {
    let events = vec![
        JsonStreamEvent::StartObject,
        key("a"),
        prim_num("1"),
        key("b"),
        JsonStreamEvent::StartArray { length: 2 },
        prim_num("2"),
        prim_num("3"),
        JsonStreamEvent::EndArray,
        JsonStreamEvent::EndObject,
    ];
    let node = build_node_from_events(events).unwrap();
    let value = node_to_json(node);
    let expected = JsonValue::Object(vec![
        (
            "a".to_string(),
            JsonValue::Primitive(StringOrNumberOrBoolOrNull::Number("1".to_string())),
        ),
        (
            "b".to_string(),
            JsonValue::Array(vec![
                JsonValue::Primitive(StringOrNumberOrBoolOrNull::Number("2".to_string())),
                JsonValue::Primitive(StringOrNumberOrBoolOrNull::Number("3".to_string())),
            ]),
        ),
    ]);
    assert_eq!(value, expected);
}

#[test]
fn builder_rejects_unmatched_end() {
    let err = build_node_from_events(vec![JsonStreamEvent::EndObject]).unwrap_err();
    assert!(matches!(err, ToonError::EventStream { .. }));
}

#[test]
fn builder_rejects_mismatched_end() {
    let events = vec![JsonStreamEvent::StartArray { length: 0 }, JsonStreamEvent::EndObject];
    let err = build_node_from_events(events).unwrap_err();
    assert!(matches!(err, ToonError::EventStream { .. }));
}

#[test]
fn builder_rejects_value_without_key() {
    let events = vec![JsonStreamEvent::StartObject, prim_num("1")];
    let err = build_node_from_events(events).unwrap_err();
    assert!(matches!(err, ToonError::EventStream { .. }));
}

#[test]
fn builder_rejects_key_outside_object() {
    let events = vec![JsonStreamEvent::StartArray { length: 0 }, key("a")];
    let err = build_node_from_events(events).unwrap_err();
    assert!(matches!(err, ToonError::EventStream { .. }));
}

#[test]
fn builder_rejects_open_frames_at_end() {
    let events = vec![JsonStreamEvent::StartObject];
    let err = build_node_from_events(events).unwrap_err();
    assert!(matches!(err, ToonError::EventStream { .. }));
}

#[test]
fn builder_rejects_empty_stream() {
    let err = build_node_from_events(vec![]).unwrap_err();
    assert!(matches!(err, ToonError::EventStream { .. }));
}

#[test]
fn encoder_keeps_duplicate_keys() {
    let v = JsonValue::Object(vec![
        (
            "k".to_string(),
            JsonValue::Primitive(StringOrNumberOrBoolOrNull::Number("1".to_string())),
        ),
        (
            "k".to_string(),
            JsonValue::Primitive(StringOrNumberOrBoolOrNull::Number("2".to_string())),
        ),
    ]);
    assert_eq!(encode(v, None), "k: 1\nk: 2");
}

#[test]
fn extra_tabular_rows_error_in_strict_mode() {
    let text = "rows[1]{id}:\n  1\n  2";
    assert!(toon::try_decode(text, None).is_err());
    let lenient = Some(toon::DecodeOptions {
        indent: None,
        strict: Some(false),
        expand_paths: None,
    });
    assert!(toon::try_decode(text, lenient).is_ok());
}
