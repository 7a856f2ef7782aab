//! The shared token utilities: literal classification, quoting rules,
//! escaping, quote-aware searches, and the header grammar pieces.

use toon::keys::{default_delimiter, is_identifier_segment, is_safe_unquoted, is_valid_unquoted_key};
use toon::literals::{is_boolean_or_null_literal, is_numeric_like, is_numeric_literal};
use toon::parser::{
    parse_array_header_line, parse_bracket_segment, parse_delimited_values, parse_key_token,
    parse_primitive_token, parse_string_literal,
};
use toon::text::{escape_string, find_closing_quote, find_unquoted_char, unescape_string};
use toon::StringOrNumberOrBoolOrNull;

#[test]
fn literal_classification() {
    assert!(is_boolean_or_null_literal("true"));
    assert!(is_boolean_or_null_literal("false"));
    assert!(is_boolean_or_null_literal("null"));
    assert!(!is_boolean_or_null_literal("True"));
    assert!(!is_boolean_or_null_literal("nil"));
}

#[test]
fn numeric_classification() {
    assert!(is_numeric_literal("0"));
    assert!(is_numeric_literal("-12.5e3"));
    assert!(!is_numeric_literal("007"));
    assert!(!is_numeric_literal("1."));
    assert!(!is_numeric_literal("1e999"));
    assert!(is_numeric_like("007"));
    assert!(is_numeric_like("-3"));
    assert!(!is_numeric_like("x1"));
}

#[test]
fn key_validity() {
    assert!(is_valid_unquoted_key("abc_1.d"));
    assert!(!is_valid_unquoted_key("1abc"));
    assert!(!is_valid_unquoted_key(""));
    assert!(is_identifier_segment("abc_1"));
    assert!(!is_identifier_segment("a.b"));
}

#[test]
fn unquoted_safety() {
    assert!(is_safe_unquoted("hello world", ','));
    assert!(!is_safe_unquoted("a,b", ','));
    assert!(is_safe_unquoted("a,b", '|'));
    assert!(!is_safe_unquoted("true", ','));
    assert!(!is_safe_unquoted(" padded", ','));
    assert!(!is_safe_unquoted("- item", ','));
    assert_eq!(default_delimiter(), ',');
}

#[test]
fn escape_and_unescape_invert() {
    let original = "a\\b\"c\nd\te\r";
    let escaped = escape_string(original);
    assert_eq!(escaped, "a\\\\b\\\"c\\nd\\te\\r");
    assert_eq!(unescape_string(&escaped).unwrap(), original);
    assert!(unescape_string("dangling\\").is_err());
    assert!(unescape_string("bad\\q").is_err());
}

#[test]
fn quote_aware_searches() {
    assert_eq!(find_closing_quote("\"a\\\"b\" rest", 0), Some(5));
    assert_eq!(find_closing_quote("\"never", 0), None);
    assert_eq!(find_unquoted_char("\"a:b\":c", ':', 0), Some(5));
    assert_eq!(find_unquoted_char("\"a:b\"", ':', 0), None);
}

#[test]
fn string_literal_parsing() {
    assert_eq!(parse_string_literal("  bare  ").unwrap(), "bare");
    assert_eq!(parse_string_literal("\"a\\nb\"").unwrap(), "a\nb");
    assert!(parse_string_literal("\"open").is_err());
    assert!(parse_string_literal("\"done\" extra").is_err());
}

#[test]
fn primitive_token_parsing() {
    assert_eq!(
        parse_primitive_token("").unwrap(),
        StringOrNumberOrBoolOrNull::String(String::new())
    );
    assert_eq!(
        parse_primitive_token(" true ").unwrap(),
        StringOrNumberOrBoolOrNull::Bool(true)
    );
    assert_eq!(
        parse_primitive_token("3.25").unwrap(),
        StringOrNumberOrBoolOrNull::Number("3.25".to_string())
    );
    assert_eq!(
        parse_primitive_token("plain").unwrap(),
        StringOrNumberOrBoolOrNull::String("plain".to_string())
    );
}

#[test]
fn delimited_value_splitting() {
    assert_eq!(parse_delimited_values("a, b ,c", ','), vec!["a", "b", "c"]);
    assert_eq!(parse_delimited_values("\"a,b\",c", ','), vec!["\"a,b\"", "c"]);
    assert_eq!(parse_delimited_values("", ','), Vec::<String>::new());
    assert_eq!(parse_delimited_values("a,", ','), vec!["a", ""]);
}

#[test]
fn bracket_segment_parsing() {
    assert_eq!(parse_bracket_segment("3", ',').unwrap(), (3, ','));
    assert_eq!(parse_bracket_segment("4|", ',').unwrap(), (4, '|'));
    assert_eq!(parse_bracket_segment("5\t", ',').unwrap(), (5, '\t'));
    assert!(parse_bracket_segment("x", ',').is_err());
}

#[test]
fn key_token_parsing() {
    assert_eq!(parse_key_token("name: 1", 0).unwrap(), ("name".to_string(), 5, false));
    assert_eq!(parse_key_token("\"a b\": 1", 0).unwrap(), ("a b".to_string(), 6, true));
    assert!(parse_key_token("nocolon", 0).is_err());
}

#[test]
fn array_header_parsing() {
    let r = parse_array_header_line("items[3]: a,b,c", ',').unwrap().unwrap();
    assert_eq!(r.header.key, Some("items".to_string()));
    assert_eq!(r.header.length, 3);
    assert_eq!(r.header.delimiter, ',');
    assert_eq!(r.header.fields, None);
    assert_eq!(r.inline_values, Some("a,b,c".to_string()));

    let r = parse_array_header_line("rows[2]{id,name}:", ',').unwrap().unwrap();
    assert_eq!(r.header.fields, Some(vec!["id".to_string(), "name".to_string()]));
    assert_eq!(r.inline_values, None);

    assert_eq!(parse_array_header_line("plain: 1", ',').unwrap(), None);
    assert!(parse_array_header_line("\"unclosed[2]: x", ',').is_err());
}
