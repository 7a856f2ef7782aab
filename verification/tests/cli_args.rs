//! The command-line decision logic: delimiter flags, mode detection, stdin
//! detection, and the token estimate.

use toon::cli::{estimate_tokens, parse_delimiter, Args, ExpandPathsArg, KeyFoldingArg, Mode};

fn base_args() -> Args {
    Args {
        input: None,
        output: None,
        encode: false,
        decode: false,
        delimiter: ',',
        indent: 2,
        no_strict: false,
        key_folding: KeyFoldingArg::Off,
        flatten_depth: None,
        expand_paths: ExpandPathsArg::Off,
        stats: false,
    }
}

#[test]
fn test_parse_delimiter() {
    assert_eq!(parse_delimiter(","), Ok(','));
    assert_eq!(parse_delimiter("|"), Ok('|'));
    assert_eq!(parse_delimiter("\\t"), Ok('\t'));
    assert_eq!(parse_delimiter("tab"), Ok('\t'));
    assert!(parse_delimiter("invalid").is_err());
}

#[test]
fn test_detect_mode_explicit_flags() {
    let mut args = base_args();
    args.encode = true;
    assert_eq!(args.detect_mode(), Mode::Encode);
}

#[test]
fn test_detect_mode_by_extension() {
    let mut args = base_args();
    args.input = Some("data.toon".to_string());
    assert_eq!(args.detect_mode(), Mode::Decode);
}

#[test]
fn detect_mode_json_extension_encodes() {
    let mut args = base_args();
    args.input = Some("input.json".to_string());
    assert_eq!(args.detect_mode(), Mode::Encode);
}

#[test]
fn detect_mode_unknown_extension_encodes() {
    let mut args = base_args();
    args.input = Some("notes.txt".to_string());
    assert_eq!(args.detect_mode(), Mode::Encode);
}

#[test]
fn detect_mode_uppercase_extension() {
    let mut args = base_args();
    args.input = Some("DATA.TOON".to_string());
    assert_eq!(args.detect_mode(), Mode::Decode);
}

#[test]
fn decode_flag_wins_over_extension() {
    let mut args = base_args();
    args.decode = true;
    args.input = Some("input.json".to_string());
    assert_eq!(args.detect_mode(), Mode::Decode);
}

#[test]
fn stdin_detection() {
    let mut args = base_args();
    assert!(args.is_stdin());
    args.input = Some("-".to_string());
    assert!(args.is_stdin());
    args.input = Some("file.toon".to_string());
    assert!(!args.is_stdin());
}

#[test]
fn token_estimate_counts_chars_and_words() {
    assert_eq!(estimate_tokens(""), 1);
    assert_eq!(estimate_tokens("abcd efgh"), 2);
    assert_eq!(estimate_tokens("a b c"), 3);
    assert_eq!(estimate_tokens("abcdefghijkl"), 3);
}
