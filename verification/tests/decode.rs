//! Decoding scenarios: root shapes, strict-mode enforcement, path
//! expansion, quoting, and numeric canonicalization.

use toon::{
    try_decode, try_decode_stream_sync, DecodeOptions, ExpandPathsMode, JsonStreamEvent,
    JsonValue, StringOrNumberOrBoolOrNull, ToonError,
};

fn s(v: &str) -> JsonValue {
    JsonValue::Primitive(StringOrNumberOrBoolOrNull::String(v.to_string()))
}

fn n(v: &str) -> JsonValue {
    JsonValue::Primitive(StringOrNumberOrBoolOrNull::Number(v.to_string()))
}

fn obj(entries: Vec<(&str, JsonValue)>) -> JsonValue {
    JsonValue::Object(entries.into_iter().map(|(k, v)| (k.to_string(), v)).collect())
}

fn strict_opts(strict: bool) -> Option<DecodeOptions> {
    Some(DecodeOptions {
        indent: None,
        strict: Some(strict),
        expand_paths: None,
    })
}

fn expand_opts() -> Option<DecodeOptions> {
    Some(DecodeOptions {
        indent: None,
        strict: None,
        expand_paths: Some(ExpandPathsMode::Safe),
    })
}

#[test]
fn empty_input_decodes_to_empty_object() {
    assert_eq!(try_decode("", None).unwrap(), JsonValue::Object(vec![]));
    assert_eq!(try_decode("\n  \n", None).unwrap(), JsonValue::Object(vec![]));
}

#[test]
fn simple_object() {
    let v = try_decode("name: hello\ncount: 3", None).unwrap();
    assert_eq!(v, obj(vec![("name", s("hello")), ("count", n("3"))]));
}

#[test]
fn nested_object() {
    let v = try_decode("outer:\n  inner: 1", None).unwrap();
    assert_eq!(v, obj(vec![("outer", obj(vec![("inner", n("1"))]))]));
}

#[test]
fn bare_primitive_document() {
    assert_eq!(try_decode("42", None).unwrap(), n("42"));
    assert_eq!(
        try_decode("true", None).unwrap(),
        JsonValue::Primitive(StringOrNumberOrBoolOrNull::Bool(true))
    );
    assert_eq!(
        try_decode("null", None).unwrap(),
        JsonValue::Primitive(StringOrNumberOrBoolOrNull::Null)
    );
}

#[test]
fn inline_primitive_array() {
    let v = try_decode("items[3]: a,b,c", None).unwrap();
    assert_eq!(
        v,
        obj(vec![("items", JsonValue::Array(vec![s("a"), s("b"), s("c")]))])
    );
}

#[test]
fn root_array_header() {
    let v = try_decode("[2]: x,y", None).unwrap();
    assert_eq!(v, JsonValue::Array(vec![s("x"), s("y")]));
}

#[test]
fn strict_count_mismatch_errors() {
    assert!(try_decode("items[3]: a,b", strict_opts(true)).is_err());
}

#[test]
fn lenient_count_mismatch_succeeds() {
    let v = try_decode("items[3]: a,b", strict_opts(false)).unwrap();
    assert_eq!(v, obj(vec![("items", JsonValue::Array(vec![s("a"), s("b")]))]));
}

#[test]
fn tabular_array() {
    let v = try_decode("rows[2]{id,name}:\n  1,a\n  2,b", None).unwrap();
    let expected = obj(vec![(
        "rows",
        JsonValue::Array(vec![
            obj(vec![("id", n("1")), ("name", s("a"))]),
            obj(vec![("id", n("2")), ("name", s("b"))]),
        ]),
    )]);
    assert_eq!(v, expected);
}

#[test]
fn list_array_of_mixed_values() {
    let v = try_decode("items[2]:\n  - 1\n  - x: 2", None).unwrap();
    let expected = obj(vec![(
        "items",
        JsonValue::Array(vec![n("1"), obj(vec![("x", n("2"))])]),
    )]);
    assert_eq!(v, expected);
}

#[test]
fn bare_marker_is_empty_object() {
    let v = try_decode("items[1]:\n  -", None).unwrap();
    assert_eq!(
        v,
        obj(vec![("items", JsonValue::Array(vec![JsonValue::Object(vec![])]))])
    );
}

#[test]
fn path_expansion_safe() {
    let v = try_decode("a.b: 1", expand_opts()).unwrap();
    assert_eq!(v, obj(vec![("a", obj(vec![("b", n("1"))]))]));
}

#[test]
fn quoted_key_suppresses_expansion() {
    let v = try_decode("\"a.b\": 1", expand_opts()).unwrap();
    assert_eq!(v, obj(vec![("a.b", n("1"))]));
}

#[test]
fn expansion_merges_sibling_paths() {
    let v = try_decode("a.b: 1\na.c: 2", expand_opts()).unwrap();
    assert_eq!(v, obj(vec![("a", obj(vec![("b", n("1")), ("c", n("2"))]))]));
}

#[test]
fn expansion_conflict_errors_in_strict_mode() {
    assert!(try_decode("a: 1\na.b: 2", expand_opts()).is_err());
}

#[test]
fn expansion_conflict_overwrites_in_lenient_mode() {
    let opts = Some(DecodeOptions {
        indent: None,
        strict: Some(false),
        expand_paths: Some(ExpandPathsMode::Safe),
    });
    let v = try_decode("a: 1\na.b: 2", opts).unwrap();
    assert_eq!(v, obj(vec![("a", obj(vec![("b", n("2"))]))]));
}

#[test]
fn tabs_in_indentation_error_in_strict_mode() {
    let err = try_decode("a:\n\tb: 1", strict_opts(true)).unwrap_err();
    assert!(matches!(err, ToonError::Validation { line: 2, .. }));
    assert!(try_decode("a:\n\tb: 1", strict_opts(false)).is_ok());
}

#[test]
fn odd_indentation_errors_in_strict_mode() {
    assert!(try_decode("a:\n   b: 1", strict_opts(true)).is_err());
    assert!(try_decode("a:\n   b: 1", strict_opts(false)).is_ok());
}

#[test]
fn blank_line_inside_tabular_block_errors_in_strict_mode() {
    let text = "rows[3]{id}:\n  1\n\n  2\n  3";
    assert!(try_decode(text, strict_opts(true)).is_err());
}

#[test]
fn extra_list_items_error_in_strict_mode() {
    let text = "items[1]:\n  - a\n  - b";
    assert!(try_decode(text, strict_opts(true)).is_err());
}

#[test]
fn unterminated_quoted_string_errors() {
    let err = try_decode("a: \"oops", None).unwrap_err();
    assert!(matches!(err, ToonError::Message { .. }));
}

#[test]
fn bad_escape_errors() {
    assert!(try_decode("a: \"x\\qy\"", None).is_err());
}

#[test]
fn quoted_string_with_escapes() {
    let v = try_decode("a: \"x\\ny\"", None).unwrap();
    assert_eq!(v, obj(vec![("a", s("x\ny"))]));
}

#[test]
fn numbers_are_canonicalized() {
    // re-spelled by the parser, not copied through
    assert_eq!(try_decode("x: 1.50", None).unwrap(), obj(vec![("x", n("1.5"))]));
    assert_eq!(try_decode("x: -0", None).unwrap(), obj(vec![("x", n("0"))]));
    assert_eq!(try_decode("x: 0.000", None).unwrap(), obj(vec![("x", n("0"))]));
    assert_eq!(try_decode("x: 100", None).unwrap(), obj(vec![("x", n("100"))]));
}

#[test]
fn shortest_form_floats_parse_exactly() {
    // tokens already in shortest form survive the parse/print round trip
    // unchanged, which needs the exact float parser
    assert_eq!(
        try_decode("x: 51.248178375505404", None).unwrap(),
        obj(vec![("x", n("51.248178375505404"))])
    );
    assert_eq!(
        try_decode("x: 2.0e35", None).unwrap(),
        obj(vec![("x", n("2e+35"))])
    );
}

#[test]
fn out_of_range_number_reads_as_null() {
    // non-finite numbers normalize to null before storage
    assert_eq!(
        try_decode("x: 1e999", None).unwrap(),
        obj(vec![("x", JsonValue::Primitive(StringOrNumberOrBoolOrNull::Null))])
    );
}

#[test]
fn leading_zero_token_reads_as_string() {
    assert_eq!(try_decode("x: 007", None).unwrap(), obj(vec![("x", s("007"))]));
}

#[test]
fn invalid_array_length_reads_as_key_value() {
    let v = try_decode("items[x]: a", None).unwrap();
    assert_eq!(v, obj(vec![("items[x]", s("a"))]));
}

#[test]
fn per_array_pipe_delimiter() {
    let v = try_decode("items[2|]: a|b", None).unwrap();
    assert_eq!(v, obj(vec![("items", JsonValue::Array(vec![s("a"), s("b")]))]));
}

#[test]
fn empty_document_event_stream() {
    let events = try_decode_stream_sync(vec![], None).unwrap();
    assert_eq!(
        events,
        vec![JsonStreamEvent::StartObject, JsonStreamEvent::EndObject]
    );
}

#[test]
fn key_value_event_stream() {
    let events = try_decode_stream_sync(vec!["a: 1".to_string()], None).unwrap();
    assert_eq!(
        events,
        vec![
            JsonStreamEvent::StartObject,
            JsonStreamEvent::Key { key: "a".to_string(), was_quoted: false },
            JsonStreamEvent::Primitive {
                value: StringOrNumberOrBoolOrNull::Number("1".to_string())
            },
            JsonStreamEvent::EndObject,
        ]
    );
}
