//! Encoding scenarios: shape classification, key folding, quoting, and the
//! round trips the two engines owe each other.

use toon::{
    encode, encode_stream_events, try_decode, try_decode_stream_sync, DecodeOptions,
    EncodeOptions, ExpandPathsMode, JsonValue, KeyFoldingMode, StringOrNumberOrBoolOrNull,
};

fn s(v: &str) -> JsonValue {
    JsonValue::Primitive(StringOrNumberOrBoolOrNull::String(v.to_string()))
}

fn n(v: &str) -> JsonValue {
    JsonValue::Primitive(StringOrNumberOrBoolOrNull::Number(v.to_string()))
}

fn obj(entries: Vec<(&str, JsonValue)>) -> JsonValue {
    JsonValue::Object(entries.into_iter().map(|(k, v)| (k.to_string(), v)).collect())
}

fn folding_opts(flatten_depth: Option<usize>) -> Option<EncodeOptions> {
    Some(EncodeOptions {
        indent: None,
        delimiter: None,
        key_folding: Some(KeyFoldingMode::Safe),
        flatten_depth,
    })
}

#[test]
fn inline_primitive_array_encoding() {
    let v = obj(vec![("items", JsonValue::Array(vec![s("a"), s("b"), s("c")]))]);
    assert_eq!(encode(v, None), "items[3]: a,b,c");
}

#[test]
fn key_folding_folds_single_chains() {
    let v = obj(vec![(
        "data",
        obj(vec![("meta", obj(vec![("items", JsonValue::Array(vec![s("x"), s("y")]))]))]),
    )]);
    assert_eq!(encode(v, folding_opts(None)), "data.meta.items[2]: x,y");
}

#[test]
fn key_folding_respects_flatten_depth() {
    let v = obj(vec![("a", obj(vec![("b", obj(vec![("c", n("1"))]))]))]);
    assert_eq!(encode(v, folding_opts(Some(2))), "a.b:\n  c: 1");
}

#[test]
fn key_folding_off_by_default() {
    let v = obj(vec![("a", obj(vec![("b", n("1"))]))]);
    assert_eq!(encode(v, None), "a:\n  b: 1");
}

#[test]
fn tabular_array_encoding() {
    let v = obj(vec![(
        "rows",
        JsonValue::Array(vec![
            obj(vec![("id", n("1")), ("name", s("a"))]),
            obj(vec![("id", n("2")), ("name", s("b"))]),
        ]),
    )]);
    assert_eq!(encode(v, None), "rows[2]{id,name}:\n  1,a\n  2,b");
}

#[test]
fn tabular_round_trip() {
    let v = obj(vec![(
        "rows",
        JsonValue::Array(vec![
            obj(vec![("id", n("1")), ("name", s("a"))]),
            obj(vec![("id", n("2")), ("name", s("b"))]),
        ]),
    )]);
    let text = encode(v, None);
    let back = try_decode(&text, None).unwrap();
    let expected = obj(vec![(
        "rows",
        JsonValue::Array(vec![
            obj(vec![("id", n("1")), ("name", s("a"))]),
            obj(vec![("id", n("2")), ("name", s("b"))]),
        ]),
    )]);
    assert_eq!(back, expected);
}

#[test]
fn empty_array_and_empty_object() {
    assert_eq!(encode(obj(vec![("a", JsonValue::Array(vec![]))]), None), "a[0]:");
    assert_eq!(encode(obj(vec![("a", JsonValue::Object(vec![]))]), None), "a:");
}

#[test]
fn mixed_array_uses_list_items() {
    let v = obj(vec![(
        "items",
        JsonValue::Array(vec![n("1"), obj(vec![("x", n("2"))])]),
    )]);
    assert_eq!(encode(v, None), "items[2]:\n  - 1\n  - x: 2");
}

#[test]
fn array_of_primitive_arrays() {
    let v = obj(vec![(
        "grid",
        JsonValue::Array(vec![
            JsonValue::Array(vec![n("1"), n("2")]),
            JsonValue::Array(vec![n("3"), n("4")]),
        ]),
    )]);
    assert_eq!(encode(v, None), "grid[2]:\n  - [2]: 1,2\n  - [2]: 3,4");
}

#[test]
fn strings_needing_quotes_are_quoted() {
    assert_eq!(encode(obj(vec![("a", s("x,y"))]), None), "a: \"x,y\"");
    assert_eq!(encode(obj(vec![("a", s("true"))]), None), "a: \"true\"");
    assert_eq!(encode(obj(vec![("a", s("12"))]), None), "a: \"12\"");
    assert_eq!(encode(obj(vec![("a", s(""))]), None), "a: \"\"");
}

#[test]
fn keys_needing_quotes_are_quoted() {
    assert_eq!(encode(obj(vec![("my key", n("1"))]), None), "\"my key\": 1");
}

#[test]
fn pipe_delimiter() {
    let opts = Some(EncodeOptions {
        indent: None,
        delimiter: Some('|'),
        key_folding: None,
        flatten_depth: None,
    });
    let v = obj(vec![("items", JsonValue::Array(vec![s("a"), s("b")]))]);
    assert_eq!(encode(v, opts), "items[2|]: a|b");
}

#[test]
fn custom_indent_width() {
    let opts = Some(EncodeOptions {
        indent: Some(4),
        delimiter: None,
        key_folding: None,
        flatten_depth: None,
    });
    let v = obj(vec![("a", obj(vec![("b", n("1"))]))]);
    assert_eq!(encode(v, opts), "a:\n    b: 1");
}

#[test]
fn normalization_folds_numeric_edge_cases() {
    // zero in any spelling becomes 0; out-of-range numbers become null
    assert_eq!(encode(obj(vec![("a", n("-0"))]), None), "a: 0");
    assert_eq!(encode(obj(vec![("a", n("1e999"))]), None), "a: null");
    assert_eq!(encode(obj(vec![("a", n("1.50"))]), None), "a: 1.5");
}

#[test]
fn round_trip_default_options() {
    let v = obj(vec![
        ("name", s("hello world")),
        ("count", n("3")),
        ("flag", JsonValue::Primitive(StringOrNumberOrBoolOrNull::Bool(true))),
        ("nothing", JsonValue::Primitive(StringOrNumberOrBoolOrNull::Null)),
        ("items", JsonValue::Array(vec![s("a"), s("b,c"), n("2.5")])),
        ("nested", obj(vec![("inner", s("deep"))])),
    ]);
    let text = encode(v, None);
    let back = try_decode(&text, None).unwrap();
    let expected = obj(vec![
        ("name", s("hello world")),
        ("count", n("3")),
        ("flag", JsonValue::Primitive(StringOrNumberOrBoolOrNull::Bool(true))),
        ("nothing", JsonValue::Primitive(StringOrNumberOrBoolOrNull::Null)),
        ("items", JsonValue::Array(vec![s("a"), s("b,c"), n("2.5")])),
        ("nested", obj(vec![("inner", s("deep"))])),
    ]);
    assert_eq!(back, expected);
}

#[test]
fn canonical_text_is_a_fixed_point() {
    let texts = vec![
        "items[3]: a,b,c",
        "a:\n  b: 1",
        "rows[2]{id,name}:\n  1,a\n  2,b",
        "x: \"a,b\"",
    ];
    for text in texts {
        let decoded = try_decode(text, None).unwrap();
        assert_eq!(encode(decoded, None), text);
    }
}

#[test]
fn fold_then_expand_is_identity() {
    let v = obj(vec![(
        "data",
        obj(vec![("meta", obj(vec![("items", JsonValue::Array(vec![s("x"), s("y")]))]))]),
    )]);
    let text = encode(v, folding_opts(None));
    let opts = Some(DecodeOptions {
        indent: None,
        strict: None,
        expand_paths: Some(ExpandPathsMode::Safe),
    });
    let back = try_decode(&text, opts).unwrap();
    let expected = obj(vec![(
        "data",
        obj(vec![("meta", obj(vec![("items", JsonValue::Array(vec![s("x"), s("y")]))]))]),
    )]);
    assert_eq!(back, expected);
}

#[test]
fn folding_avoids_sibling_collisions() {
    let v = obj(vec![
        ("a", obj(vec![("b", n("1"))])),
        ("a.b", n("2")),
    ]);
    // folding "a" to "a.b" would collide with the literal sibling key
    assert_eq!(encode(v, folding_opts(None)), "a:\n  b: 1\na.b: 2");
}

#[test]
fn encoder_and_decoder_share_the_event_stream() {
    let v = obj(vec![("a", n("1")), ("b", JsonValue::Array(vec![s("x")]))]);
    let encoded_events = encode_stream_events(v, None);
    let decoded_events =
        try_decode_stream_sync(vec!["a: 1".to_string(), "b[1]: x".to_string()], None).unwrap();
    assert_eq!(encoded_events, decoded_events);
}
