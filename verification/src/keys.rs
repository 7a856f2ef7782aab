//! Validity rules for unquoted keys and unquoted string values: what may be
//! written bare in TOON text and what must be put in quotes.

use vstd::prelude::*;

verus! {

use crate::text::{is_trimmed, chars_of};
use crate::literals::{is_bool_or_null_lit, is_numeric_like_seq, chars_bool_or_null,
    chars_numeric_like_trimmed};

/// May a character start a bare identifier? ASCII letters and underscore.
pub open spec fn is_ident_start(c: char) -> bool {
    ('a' <= c && c <= 'z') || ('A' <= c && c <= 'Z') || c == '_'
}

/// May a character continue a bare identifier? ASCII letters, digits and
/// underscore.
pub open spec fn is_ident_char(c: char) -> bool {
    is_ident_start(c) || ('0' <= c && c <= '9')
}

/// An unquoted key: an identifier start, then identifier characters or dots.
pub open spec fn is_unquoted_key(s: Seq<char>) -> bool {
    &&& s.len() > 0
    &&& is_ident_start(s[0])
    &&& forall|k: int| 1 <= k < s.len() ==> is_ident_char(s[k]) || s[k] == '.'
}

/// One dot-free segment of a folded key path.
pub open spec fn is_ident_segment(s: Seq<char>) -> bool {
    &&& s.len() > 0
    &&& is_ident_start(s[0])
    &&& forall|k: int| 1 <= k < s.len() ==> is_ident_char(s[k])
}

fn is_ident_start_char(c: char) -> (r: bool)
    ensures
        r == is_ident_start(c),
{
    ('a' <= c && c <= 'z') || ('A' <= c && c <= 'Z') || c == '_'
}

fn is_ident_char_exec(c: char) -> (r: bool)
    ensures
        r == is_ident_char(c),
{
    is_ident_start_char(c) || ('0' <= c && c <= '9')
}

/// [`is_unquoted_key`] over a character vector.
pub fn chars_valid_unquoted_key(cs: &Vec<char>) -> (r: bool)
    ensures
        r == is_unquoted_key(cs@),
{
    if cs.len() == 0 {
        return false;
    }
    if !is_ident_start_char(cs[0]) {
        return false;
    }
    let mut i: usize = 1;
    while i < cs.len()
        invariant
            1 <= i <= cs.len(),
            forall|k: int| 1 <= k < i ==> is_ident_char(cs@[k]) || cs@[k] == '.',
        decreases cs.len() - i,
    {
        let c = cs[i];
        if !(is_ident_char_exec(c) || c == '.') {
            return false;
        }
        i += 1;
    }
    true
}

/// May `key` be written without quotes?
pub fn is_valid_unquoted_key(key: &str) -> (r: bool)
    ensures
        r == is_unquoted_key(key@),
{
    let cs = chars_of(key);
    chars_valid_unquoted_key(&cs)
}

/// [`is_ident_segment`] over a character vector.
pub fn chars_identifier_segment(cs: &Vec<char>) -> (r: bool)
    ensures
        r == is_ident_segment(cs@),
{
    if cs.len() == 0 {
        return false;
    }
    if !is_ident_start_char(cs[0]) {
        return false;
    }
    let mut i: usize = 1;
    while i < cs.len()
        invariant
            1 <= i <= cs.len(),
            forall|k: int| 1 <= k < i ==> is_ident_char(cs@[k]),
        decreases cs.len() - i,
    {
        if !is_ident_char_exec(cs[i]) {
            return false;
        }
        i += 1;
    }
    true
}

/// Is `segment` a valid dot-free path segment?
pub fn is_identifier_segment(segment: &str) -> (r: bool)
    ensures
        r == is_ident_segment(segment@),
{
    let cs = chars_of(segment);
    chars_identifier_segment(&cs)
}

/// The characters that force a string value into quotes, besides the active
/// delimiter.
pub open spec fn is_reserved_value_char(c: char) -> bool {
    c == ':' || c == '"' || c == '\\' || c == '[' || c == ']' || c == '{' || c == '}' || c == '\n'
        || c == '\r' || c == '\t'
}

/// May the string `s` be written without quotes as a value, with `delimiter`
/// active? It must be nonempty and trimmed, must not read as a keyword or a
/// number, must avoid reserved characters and the delimiter, and must not
/// start with the list-item marker.
pub open spec fn safe_unquoted(s: Seq<char>, delimiter: char) -> bool {
    &&& s.len() > 0
    &&& is_trimmed(s)
    &&& !is_bool_or_null_lit(s)
    &&& !is_numeric_like_seq(s)
    &&& forall|k: int| 0 <= k < s.len() ==> !is_reserved_value_char(s[k]) && s[k] != delimiter
    &&& s[0] != '-'
}

/// [`safe_unquoted`] over a character vector.
pub fn chars_safe_unquoted(cs: &Vec<char>, delimiter: char) -> (r: bool)
    ensures
        r == safe_unquoted(cs@, delimiter),
{
    if cs.len() == 0 {
        return false;
    }
    let t = crate::text::trim_chars(cs);
    if t.len() != cs.len() {
        proof {
            assert(cs@ != t@);
        }
        return false;
    }
    // trimming never reorders characters, so equal length means equality
    let mut j: usize = 0;
    let mut equal: bool = true;
    while j < cs.len()
        invariant
            0 <= j <= cs.len(),
            t@.len() == cs@.len(),
            equal == (forall|k: int| 0 <= k < j ==> cs@[k] == t@[k]),
        decreases cs.len() - j,
    {
        if t[j] != cs[j] {
            equal = false;
            proof {
                assert(cs@[j as int] != t@[j as int]);
            }
        }
        j += 1;
    }
    if !equal {
        proof {
            assert(cs@ != t@);
        }
        return false;
    }
    proof {
        assert(cs@ =~= t@);
    }
    if chars_bool_or_null(cs) {
        return false;
    }
    if chars_numeric_like_trimmed(&t) {
        return false;
    }
    if cs[0] == '-' {
        return false;
    }
    let mut i: usize = 0;
    while i < cs.len()
        invariant
            0 <= i <= cs.len(),
            forall|k: int| 0 <= k < i ==> !is_reserved_value_char(cs@[k]) && cs@[k] != delimiter,
        decreases cs.len() - i,
    {
        let c = cs[i];
        if c == ':' || c == '"' || c == '\\' || c == '[' || c == ']' || c == '{' || c == '}' || c
            == '\n' || c == '\r' || c == '\t' || c == delimiter {
            return false;
        }
        i += 1;
    }
    true
}

/// May `value` be written without quotes, with `delimiter` active?
pub fn is_safe_unquoted(value: &str, delimiter: char) -> (r: bool)
    ensures
        r == safe_unquoted(value@, delimiter),
{
    let cs = chars_of(value);
    chars_safe_unquoted(&cs, delimiter)
}

/// The delimiter used when no option overrides it.
pub fn default_delimiter() -> (r: char)
    ensures
        r == ',',
{
    ','
}

} // verus!
