//! Caller-supplied configuration: encode options (indent width, delimiter,
//! key folding, flatten depth) and decode options (indent width, strict mode,
//! path expansion), with the defaults each unset field falls back to.

use vstd::prelude::*;

verus! {

/// Whether the encoder folds single-child object chains into dotted keys.
#[derive(Debug, Clone, Copy, PartialEq, Eq, Structural)]
pub enum KeyFoldingMode {
    Off,
    Safe,
}

/// Whether the decoder expands unquoted dotted keys into nested objects.
#[derive(Debug, Clone, Copy, PartialEq, Eq, Structural)]
pub enum ExpandPathsMode {
    Off,
    Safe,
}

/// One step of the path handed to a replacer: an object key or an array
/// index.
#[derive(Debug, Clone, PartialEq, Eq)]
pub enum PathSegment {
    Key(String),
    Index(usize),
}

/// Encode configuration; every field falls back to a default when unset.
#[derive(Debug, Clone)]
pub struct EncodeOptions {
    pub indent: Option<usize>,
    pub delimiter: Option<char>,
    pub key_folding: Option<KeyFoldingMode>,
    pub flatten_depth: Option<usize>,
}

/// Decode configuration; every field falls back to a default when unset.
#[derive(Debug, Clone)]
pub struct DecodeOptions {
    pub indent: Option<usize>,
    pub strict: Option<bool>,
    pub expand_paths: Option<ExpandPathsMode>,
}

/// Configuration for decoding straight to an event stream.
#[derive(Debug, Clone)]
pub struct DecodeStreamOptions {
    pub indent: Option<usize>,
    pub strict: Option<bool>,
}

impl DecodeStreamOptions {
    /// The all-defaults configuration.
    pub fn new() -> (r: DecodeStreamOptions)
        ensures
            r.indent is None,
            r.strict is None,
    {
        DecodeStreamOptions { indent: None, strict: None }
    }
}

/// Encode configuration with every default applied.
#[derive(Debug, Clone)]
pub struct ResolvedEncodeOptions {
    pub indent: usize,
    pub delimiter: char,
    pub key_folding: KeyFoldingMode,
    pub flatten_depth: usize,
}

/// Decode configuration with every default applied.
#[derive(Debug, Clone)]
pub struct ResolvedDecodeOptions {
    pub indent: usize,
    pub strict: bool,
    pub expand_paths: ExpandPathsMode,
}

/// Apply encode defaults: indent 2, comma delimiter, folding off, unlimited
/// flatten depth.
pub fn resolve_encode_options(options: Option<EncodeOptions>) -> (r: ResolvedEncodeOptions)
    ensures
        r.indent == match options {
            Option::Some(ref o) => if o.indent is Some {
                o.indent.unwrap()
            } else {
                2usize
            },
            Option::None => 2usize,
        },
        r.delimiter == match options {
            Option::Some(ref o) => if o.delimiter is Some {
                o.delimiter.unwrap()
            } else {
                ','
            },
            Option::None => ',',
        },
        r.key_folding == match options {
            Option::Some(ref o) => if o.key_folding is Some {
                o.key_folding.unwrap()
            } else {
                KeyFoldingMode::Off
            },
            Option::None => KeyFoldingMode::Off,
        },
        r.flatten_depth == match options {
            Option::Some(ref o) => if o.flatten_depth is Some {
                o.flatten_depth.unwrap()
            } else {
                usize::MAX
            },
            Option::None => usize::MAX,
        },
{
    match options {
        Option::Some(o) => ResolvedEncodeOptions {
            indent: match o.indent {
                Option::Some(v) => v,
                Option::None => 2,
            },
            delimiter: match o.delimiter {
                Option::Some(v) => v,
                Option::None => ',',
            },
            key_folding: match o.key_folding {
                Option::Some(v) => v,
                Option::None => KeyFoldingMode::Off,
            },
            flatten_depth: match o.flatten_depth {
                Option::Some(v) => v,
                Option::None => usize::MAX,
            },
        },
        Option::None => ResolvedEncodeOptions {
            indent: 2,
            delimiter: ',',
            key_folding: KeyFoldingMode::Off,
            flatten_depth: usize::MAX,
        },
    }
}

/// Apply decode defaults: indent 2, strict on, path expansion off.
pub fn resolve_decode_options(options: Option<DecodeOptions>) -> (r: ResolvedDecodeOptions)
    ensures
        r.indent == match options {
            Option::Some(ref o) => if o.indent is Some {
                o.indent.unwrap()
            } else {
                2usize
            },
            Option::None => 2usize,
        },
        r.strict == match options {
            Option::Some(ref o) => if o.strict is Some {
                o.strict.unwrap()
            } else {
                true
            },
            Option::None => true,
        },
        r.expand_paths == match options {
            Option::Some(ref o) => if o.expand_paths is Some {
                o.expand_paths.unwrap()
            } else {
                ExpandPathsMode::Off
            },
            Option::None => ExpandPathsMode::Off,
        },
{
    match options {
        Option::Some(o) => ResolvedDecodeOptions {
            indent: match o.indent {
                Option::Some(v) => v,
                Option::None => 2,
            },
            strict: match o.strict {
                Option::Some(v) => v,
                Option::None => true,
            },
            expand_paths: match o.expand_paths {
                Option::Some(v) => v,
                Option::None => ExpandPathsMode::Off,
            },
        },
        Option::None => ResolvedDecodeOptions {
            indent: 2,
            strict: true,
            expand_paths: ExpandPathsMode::Off,
        },
    }
}

} // verus!
