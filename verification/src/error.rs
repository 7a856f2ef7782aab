//! Error types for TOON encoding and decoding: parse errors, strict-mode
//! validation errors, event-stream consistency errors, path-expansion
//! conflicts, and carriers for I/O and JSON trouble reported by callers.

use vstd::prelude::*;

verus! {

/// Everything that can go wrong while encoding or decoding.
#[derive(Debug)]
pub enum ToonError {
    /// Malformed grammar, with the line it was found on.
    Parse { line: usize, message: String },
    /// A strict-mode invariant failed, with the line it was found on.
    Validation { line: usize, message: String },
    /// The event sequence was internally inconsistent.
    EventStream { message: String },
    /// Path expansion hit a merge conflict.
    PathExpansion { path: String, message: String },
    /// An I/O failure reported by the caller.
    Io { operation: String, path: Option<String>, message: String },
    /// A JSON conversion failure reported by the caller.
    Json { message: String },
    /// A plain message.
    Message { message: String },
}

pub type Result<T> = core::result::Result<T, ToonError>;

impl ToonError {
    /// A plain message error.
    pub fn message(message: &str) -> (e: ToonError)
        ensures
            e matches ToonError::Message { message: m } && m@ == message@,
    {
        ToonError::Message { message: String::from_str(message) }
    }

    /// A plain message error from an owned string.
    pub fn message_owned(message: String) -> (e: ToonError)
        ensures
            e == (ToonError::Message { message }),
    {
        ToonError::Message { message }
    }

    /// A parse error on `line`.
    pub fn parse(line: usize, message: &str) -> (e: ToonError)
        ensures
            e matches ToonError::Parse { line: l, message: m } && l == line && m@ == message@,
    {
        ToonError::Parse { line, message: String::from_str(message) }
    }

    /// The quoted string starting on `line` never closes.
    pub fn unterminated_string(line: usize) -> (e: ToonError)
        ensures
            e matches ToonError::Parse { line: l, message: m } && l == line,
    {
        ToonError::Parse {
            line,
            message: String::from_str("Unterminated string: missing closing quote"),
        }
    }

    /// A key on `line` has no colon after it.
    pub fn missing_colon(line: usize) -> (e: ToonError)
        ensures
            e matches ToonError::Parse { line: l, message: m } && l == line,
    {
        ToonError::Parse { line, message: String::from_str("Missing colon after key") }
    }

    /// The bracket segment on `line` holds no readable length.
    pub fn invalid_array_length(line: usize, value: &str) -> (e: ToonError)
        ensures
            e matches ToonError::Parse { line: l, message: m } && l == line,
    {
        let msg = String::from_str("Invalid array length: ").concat(value);
        ToonError::Parse { line, message: msg }
    }

    /// A strict-mode validation error on `line`.
    pub fn validation(line: usize, message: &str) -> (e: ToonError)
        ensures
            e matches ToonError::Validation { line: l, message: m } && l == line && m@ == message@,
    {
        ToonError::Validation { line, message: String::from_str(message) }
    }

    /// Strict mode forbids tabs in indentation.
    pub fn tabs_not_allowed(line: usize) -> (e: ToonError)
        ensures
            e matches ToonError::Validation { line: l, message: m } && l == line,
    {
        ToonError::Validation {
            line,
            message: String::from_str("Tabs are not allowed in indentation in strict mode"),
        }
    }

    /// Strict mode demands indentation in exact multiples of the indent width.
    pub fn invalid_indentation(line: usize, expected: usize, found: usize) -> (e: ToonError)
        ensures
            e matches ToonError::Validation { line: l, message: m } && l == line,
    {
        let mut msg = String::from_str("Indentation must be exact multiple of ");
        msg.append(crate::text::decimal_string(expected).as_str());
        msg.append(", but found ");
        msg.append(crate::text::decimal_string(found).as_str());
        msg.append(" spaces");
        ToonError::Validation { line, message: msg }
    }

    /// An event-stream consistency error.
    pub fn event_stream(message: &str) -> (e: ToonError)
        ensures
            e matches ToonError::EventStream { message: m } && m@ == message@,
    {
        ToonError::EventStream { message: String::from_str(message) }
    }

    /// An end event closed something other than what was open.
    pub fn mismatched_end(expected: &str, found: &str) -> (e: ToonError)
        ensures
            e matches ToonError::EventStream { message: m },
    {
        let mut msg = String::from_str("Mismatched end event: expected ");
        msg.append(expected);
        msg.append(", found ");
        msg.append(found);
        ToonError::EventStream { message: msg }
    }

    /// An event arrived where the builder could not place it.
    pub fn unexpected_event(event: &str, context: &str) -> (e: ToonError)
        ensures
            e matches ToonError::EventStream { message: m },
    {
        let mut msg = String::from_str("Unexpected ");
        msg.append(event);
        msg.append(" event ");
        msg.append(context);
        ToonError::EventStream { message: msg }
    }

    /// A path expansion error at `path`.
    pub fn path_expansion(path: &str, message: &str) -> (e: ToonError)
        ensures
            e matches ToonError::PathExpansion { path: p, message: m } && p@ == path@ && m@
                == message@,
    {
        ToonError::PathExpansion {
            path: String::from_str(path),
            message: String::from_str(message),
        }
    }

    /// Expanding `path` would overwrite the existing key `existing`.
    pub fn path_conflict(path: &str, existing: &str) -> (e: ToonError)
        ensures
            e matches ToonError::PathExpansion { path: p, message: m } && p@ == path@,
    {
        let mut msg = String::from_str("conflicts with existing key '");
        msg.append(existing);
        msg.append("'");
        ToonError::PathExpansion { path: String::from_str(path), message: msg }
    }

    /// An I/O error reported by the caller, with operation and path context.
    pub fn io(operation: &str, path: Option<String>, message: &str) -> (e: ToonError)
        ensures
            e matches ToonError::Io { operation: o, path: p, message: m } && o@ == operation@ && p
                == path && m@ == message@,
    {
        ToonError::Io {
            operation: String::from_str(operation),
            path,
            message: String::from_str(message),
        }
    }

    /// A file could not be read.
    pub fn file_read(path: String, message: &str) -> (e: ToonError)
        ensures
            e matches ToonError::Io { operation: o, path: p, message: m } && p == Some(path) && m@
                == message@,
    {
        ToonError::Io {
            operation: String::from_str("Failed to read file"),
            path: Some(path),
            message: String::from_str(message),
        }
    }

    /// A file could not be written.
    pub fn file_write(path: String, message: &str) -> (e: ToonError)
        ensures
            e matches ToonError::Io { operation: o, path: p, message: m } && p == Some(path) && m@
                == message@,
    {
        ToonError::Io {
            operation: String::from_str("Failed to write to file"),
            path: Some(path),
            message: String::from_str(message),
        }
    }

    /// A file could not be created.
    pub fn file_create(path: String, message: &str) -> (e: ToonError)
        ensures
            e matches ToonError::Io { operation: o, path: p, message: m } && p == Some(path) && m@
                == message@,
    {
        ToonError::Io {
            operation: String::from_str("Failed to create file"),
            path: Some(path),
            message: String::from_str(message),
        }
    }

    /// Standard input could not be read.
    pub fn stdin_read(message: &str) -> (e: ToonError)
        ensures
            e matches ToonError::Io { operation: o, path: p, message: m } && p is None && m@
                == message@,
    {
        ToonError::Io {
            operation: String::from_str("Failed to read stdin"),
            path: None,
            message: String::from_str(message),
        }
    }

    /// Standard output could not be written.
    pub fn stdout_write(message: &str) -> (e: ToonError)
        ensures
            e matches ToonError::Io { operation: o, path: p, message: m } && p is None && m@
                == message@,
    {
        ToonError::Io {
            operation: String::from_str("Failed to write to stdout"),
            path: None,
            message: String::from_str(message),
        }
    }

    /// A JSON conversion error reported by the caller.
    pub fn json(message: &str) -> (e: ToonError)
        ensures
            e matches ToonError::Json { message: m } && m@ == message@,
    {
        ToonError::Json { message: String::from_str(message) }
    }
}

} // verus!
