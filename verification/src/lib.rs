//! A verified codec between a generic JSON data model and TOON, a compact,
//! indentation-based text serialization format.
//!
//! Decoding scans lines, parses array headers and primitive tokens, and emits
//! a canonical event sequence from which an ordered value tree is built;
//! encoding classifies array and object shapes and writes the most compact
//! textual form. Both directions share one data model and one grammar.

pub mod api;
pub mod cli;
pub mod decoders;
pub mod encoders;
pub mod error;
pub mod events;
pub mod expand;
pub mod folding;
pub mod keys;
pub mod laws;
pub mod literals;
pub mod options;
pub mod parser;
pub mod primitives;
pub mod scanner;
pub mod text;
pub mod validation;
pub mod value;

pub use api::{encode, encode_lines, encode_stream_events, try_decode, try_decode_from_lines,
    try_decode_stream_sync};
pub use error::{Result, ToonError};
pub use options::{DecodeOptions, DecodeStreamOptions, EncodeOptions, ExpandPathsMode,
    KeyFoldingMode, PathSegment, ResolvedDecodeOptions, ResolvedEncodeOptions,
    resolve_decode_options, resolve_encode_options};
pub use scanner::compute_depth_from_indent;
pub use value::{normalize_json_value, JsonArray, JsonObject, JsonPrimitive, JsonStreamEvent,
    JsonValue, StringOrNumberOrBoolOrNull};
