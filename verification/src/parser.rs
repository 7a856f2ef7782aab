//! The array-header grammar parser and the primitive tokenizer: quoted
//! string literals, key tokens, delimiter-aware value splitting, the
//! `[LENGTH<delim>]` bracket segment, and the full
//! `key?[LENGTH<delim>]{fields}?:inline?` header line.

use vstd::prelude::*;

verus! {

use crate::text::{
    trim_seq,
    trim_chars,
    chars_of,
    string_from_chars,
    subrange_chars,
    closing_quote_from,
    closing_quote_in_chars,
    find_char_from,
    find_char,
    find_unquoted_from,
    find_unquoted_in_chars,
    unescape_seq,
    unescape_chars,
    first_non_ws,
    usize_parse_ok,
    digits_val,
    plus_stripped,
    is_ws_char,
};
use crate::literals::{true_lit, false_lit, null_lit, json_number_core, chars_are_true,
    chars_are_false, chars_are_null, chars_json_number_trimmed};
use crate::value::{JsonPrimitive, StringOrNumberOrBoolOrNull, PrimModel, prim_model, prim_normal,
    number_norm};
use crate::error::{Result, ToonError};

/// Metadata read from one array header line.
#[derive(Debug, PartialEq)]
pub struct ArrayHeaderInfo {
    /// The key in front of the bracket, if the array has one.
    pub key: Option<String>,
    /// The element count the header declares.
    pub length: usize,
    /// The delimiter this array's body uses.
    pub delimiter: char,
    /// The field names of a tabular array.
    pub fields: Option<Vec<String>>,
}

/// An array header plus whatever followed its colon on the same line.
#[derive(Debug, PartialEq)]
pub struct ArrayHeaderParseResult {
    pub header: ArrayHeaderInfo,
    pub inline_values: Option<String>,
}

/// What a (possibly quoted) string literal token denotes: `None` when its
/// quoting or escapes are malformed.
pub open spec fn string_literal_spec(s: Seq<char>) -> Option<Seq<char>> {
    let t = trim_seq(s);
    if t.len() > 0 && t[0] == '"' {
        match closing_quote_from(t, 1) {
            Option::None => None,
            Option::Some(j) => if j != t.len() - 1 {
                None
            } else {
                unescape_seq(t.subrange(1, j))
            },
        }
    } else {
        Some(t)
    }
}

/// Parse a string literal token: a quoted token is unescaped and must have
/// nothing after its closing quote; a bare token is trimmed and taken as is.
///
/// Fails exactly when the token starts with a quote that never closes, has
/// text after its closing quote, or holds a bad escape.
pub fn parse_string_literal(token: &str) -> (r: Result<String>)
    ensures
        match r {
            Result::Ok(k) => string_literal_spec(token@) == Some(k@),
            Result::Err(_) => string_literal_spec(token@) is None,
        },
{
    let cs = chars_of(token);
    chars_string_literal(&cs)
}

/// [`parse_string_literal`] over an already collected character vector.
pub fn chars_string_literal(cs: &Vec<char>) -> (r: Result<String>)
    ensures
        match r {
            Result::Ok(k) => string_literal_spec(cs@) == Some(k@),
            Result::Err(_) => string_literal_spec(cs@) is None,
        },
{
    let t = trim_chars(cs);
    if t.len() > 0 && t[0] == '"' {
        match closing_quote_in_chars(&t, 0) {
            Option::Some(j) => {
                if j != t.len() - 1 {
                    return Err(ToonError::message("Unexpected characters after closing quote"));
                }
                let body = subrange_chars(&t, 1, j);
                match unescape_chars(&body) {
                    Ok(k) => Ok(k),
                    Err(e) => Err(ToonError::message_owned(e)),
                }
            },
            Option::None => Err(ToonError::message("Unterminated string: missing closing quote")),
        }
    } else {
        Ok(string_from_chars(t.as_slice()))
    }
}

/// What a primitive token denotes: the empty string for an empty token, a
/// quoted or bare string, a keyword literal, or a number brought into
/// canonical form (a number outside the finite double range normalizes to
/// null, as every non-finite number does). `None` exactly when a quoted
/// string is malformed.
pub open spec fn primitive_token_spec(s: Seq<char>) -> Option<PrimModel> {
    let t = trim_seq(s);
    if t.len() == 0 {
        Some(PrimModel::Str(Seq::empty()))
    } else if t[0] == '"' {
        match string_literal_spec(t) {
            Option::None => None,
            Option::Some(u) => Some(PrimModel::Str(u)),
        }
    } else if t == true_lit() {
        Some(PrimModel::Bool(true))
    } else if t == false_lit() {
        Some(PrimModel::Bool(false))
    } else if t == null_lit() {
        Some(PrimModel::Null)
    } else if json_number_core(t) {
        match number_norm(t) {
            Option::Some(c) => Some(PrimModel::Num(c)),
            Option::None => Some(PrimModel::Null),
        }
    } else {
        Some(PrimModel::Str(t))
    }
}

/// Parse one primitive token.
///
/// Fails exactly when the token is a malformed quoted string.
pub fn parse_primitive_token(token: &str) -> (r: Result<JsonPrimitive>)
    ensures
        match r {
            Result::Ok(p) => primitive_token_spec(token@) == Some(prim_model(p)) && prim_normal(
                prim_model(p),
            ),
            Result::Err(_) => primitive_token_spec(token@) is None,
        },
{
    let cs = chars_of(token);
    chars_primitive_token(&cs)
}

/// [`parse_primitive_token`] over an already collected character vector.
pub fn chars_primitive_token(cs: &Vec<char>) -> (r: Result<JsonPrimitive>)
    ensures
        match r {
            Result::Ok(p) => primitive_token_spec(cs@) == Some(prim_model(p)) && prim_normal(
                prim_model(p),
            ),
            Result::Err(_) => primitive_token_spec(cs@) is None,
        },
{
    let t = trim_chars(cs);
    if t.len() == 0 {
        let empty = string_from_chars(t.as_slice());
        proof {
            assert(t@ =~= Seq::<char>::empty());
        }
        return Ok(StringOrNumberOrBoolOrNull::String(empty));
    }
    if t[0] == '"' {
        proof {
            crate::text::lemma_trim_idempotent(cs@);
        }
        match chars_string_literal(&t) {
            Result::Ok(u) => {
                return Ok(StringOrNumberOrBoolOrNull::String(u));
            },
            Result::Err(e) => {
                return Err(e);
            },
        }
    }
    if chars_are_true(&t) {
        return Ok(StringOrNumberOrBoolOrNull::Bool(true));
    }
    if chars_are_false(&t) {
        return Ok(StringOrNumberOrBoolOrNull::Bool(false));
    }
    if chars_are_null(&t) {
        return Ok(StringOrNumberOrBoolOrNull::Null);
    }
    let t_string = string_from_chars(t.as_slice());
    if chars_json_number_trimmed(&t) {
        match crate::value::normalize_number_token(t_string.as_str()) {
            Option::Some(c) => {
                return Ok(StringOrNumberOrBoolOrNull::Number(c));
            },
            Option::None => {
                return Ok(StringOrNumberOrBoolOrNull::Null);
            },
        }
    }
    Ok(StringOrNumberOrBoolOrNull::String(t_string))
}

/// Parse every token of a row into primitives; rows always read as
/// primitives unless a quoted string in them is malformed.
pub fn map_row_values_to_primitives(values: &Vec<String>) -> (r: Result<Vec<JsonPrimitive>>)
    ensures
        match r {
            Result::Ok(ps) => {
                &&& ps@.len() == values@.len()
                &&& forall|i: int|
                    0 <= i < ps@.len() ==> primitive_token_spec(values@[i]@) == Some(
                        prim_model(#[trigger] ps@[i]),
                    ) && prim_normal(prim_model(ps@[i]))
            },
            Result::Err(_) => exists|i: int|
                0 <= i < values@.len() && primitive_token_spec(#[trigger] values@[i]@) is None,
        },
{
    let mut out: Vec<JsonPrimitive> = Vec::new();
    let mut i: usize = 0;
    while i < values.len()
        invariant
            0 <= i <= values@.len(),
            out@.len() == i,
            forall|k: int|
                0 <= k < i ==> primitive_token_spec(values@[k]@) == Some(
                    prim_model(#[trigger] out@[k]),
                ) && prim_normal(prim_model(out@[k])),
        decreases values.len() - i,
    {
        match parse_primitive_token(values[i].as_str()) {
            Result::Ok(p) => {
                out.push(p);
            },
            Result::Err(e) => {
                return Err(e);
            },
        }
        i += 1;
    }
    Ok(out)
}

/// What reading an unquoted key from `start` yields: the trimmed text up to
/// the first colon, and the position after that colon.
pub open spec fn unquoted_key_spec(s: Seq<char>, start: int) -> Option<(Seq<char>, int)> {
    match find_char_from(s, ':', start) {
        Option::None => None,
        Option::Some(p) => Some((trim_seq(s.subrange(start, p)), p + 1)),
    }
}

/// Read an unquoted key: everything up to the first colon, trimmed.
///
/// Fails exactly when no colon follows.
pub fn parse_unquoted_key(content: &str, start: usize) -> (r: Result<(String, usize)>)
    ensures
        match r {
            Result::Ok(ke) => unquoted_key_spec(content@, start as int) == Some(
                (ke.0@, ke.1 as int),
            ),
            Result::Err(_) => unquoted_key_spec(content@, start as int) is None,
        },
{
    let cs = chars_of(content);
    chars_unquoted_key(&cs, start)
}

/// [`parse_unquoted_key`] over an already collected character vector.
pub fn chars_unquoted_key(cs: &Vec<char>, start: usize) -> (r: Result<(String, usize)>)
    ensures
        match r {
            Result::Ok(ke) => unquoted_key_spec(cs@, start as int) == Some((ke.0@, ke.1 as int))
                && start < ke.1 <= cs@.len(),
            Result::Err(_) => unquoted_key_spec(cs@, start as int) is None,
        },
{
    match find_char(cs, ':', start) {
        Option::Some(p) => {
            assert(p < cs.len());
            let body = subrange_chars(cs, start, p);
            let key = trim_chars(&body);
            Ok((string_from_chars(key.as_slice()), p + 1))
        },
        Option::None => Err(ToonError::message("Missing colon after key")),
    }
}

/// What reading a quoted key from `start` yields: the unescaped key body and
/// the position after the colon that must follow the closing quote.
pub open spec fn quoted_key_spec(s: Seq<char>, start: int) -> Option<(Seq<char>, int)> {
    match closing_quote_from(s, start + 1) {
        Option::None => None,
        Option::Some(j) => match unescape_seq(s.subrange(start + 1, j)) {
            Option::None => None,
            Option::Some(k) => if j + 1 < s.len() && s[j + 1] == ':' {
                Some((k, j + 2))
            } else {
                None
            },
        },
    }
}

/// Read a quoted key and the colon after it.
///
/// Fails exactly when the quote never closes, an escape is bad, or no colon
/// follows the closing quote.
pub fn parse_quoted_key(content: &str, start: usize) -> (r: Result<(String, usize)>)
    ensures
        match r {
            Result::Ok(ke) => quoted_key_spec(content@, start as int) == Some((ke.0@, ke.1 as int)),
            Result::Err(_) => quoted_key_spec(content@, start as int) is None,
        },
{
    let cs = chars_of(content);
    chars_quoted_key(&cs, start)
}

/// [`parse_quoted_key`] over an already collected character vector.
pub fn chars_quoted_key(cs: &Vec<char>, start: usize) -> (r: Result<(String, usize)>)
    ensures
        match r {
            Result::Ok(ke) => quoted_key_spec(cs@, start as int) == Some((ke.0@, ke.1 as int))
                && start < ke.1 <= cs@.len(),
            Result::Err(_) => quoted_key_spec(cs@, start as int) is None,
        },
{
    if start >= cs.len() {
        return Err(ToonError::message("Unterminated quoted key"));
    }
    match closing_quote_in_chars(cs, start) {
        Option::None => Err(ToonError::message("Unterminated quoted key")),
        Option::Some(j) => {
            let body = subrange_chars(cs, start + 1, j);
            match unescape_chars(&body) {
                Err(e) => Err(ToonError::message_owned(e)),
                Ok(key) => {
                    if j + 1 < cs.len() && cs[j + 1] == ':' {
                        Ok((key, j + 2))
                    } else {
                        Err(ToonError::message("Missing colon after key"))
                    }
                },
            }
        },
    }
}

/// What reading a key token from `start` yields: the key, the position after
/// its colon, and whether it was quoted.
pub open spec fn key_token_spec(s: Seq<char>, start: int) -> Option<(Seq<char>, int, bool)> {
    if 0 <= start < s.len() && s[start] == '"' {
        match quoted_key_spec(s, start) {
            Option::None => None,
            Option::Some(ke) => Some((ke.0, ke.1, true)),
        }
    } else {
        match unquoted_key_spec(s, start) {
            Option::None => None,
            Option::Some(ke) => Some((ke.0, ke.1, false)),
        }
    }
}

/// Read a key token, quoted or unquoted, and report which it was.
pub fn parse_key_token(content: &str, start: usize) -> (r: Result<(String, usize, bool)>)
    ensures
        match r {
            Result::Ok(ke) => key_token_spec(content@, start as int) == Some(
                (ke.0@, ke.1 as int, ke.2),
            ),
            Result::Err(_) => key_token_spec(content@, start as int) is None,
        },
{
    let cs = chars_of(content);
    chars_key_token(&cs, start)
}

/// [`parse_key_token`] over an already collected character vector.
pub fn chars_key_token(cs: &Vec<char>, start: usize) -> (r: Result<(String, usize, bool)>)
    ensures
        match r {
            Result::Ok(ke) => key_token_spec(cs@, start as int) == Some(
                (ke.0@, ke.1 as int, ke.2),
            ) && start < ke.1 <= cs@.len(),
            Result::Err(_) => key_token_spec(cs@, start as int) is None,
        },
{
    let is_quoted = start < cs.len() && cs[start] == '"';
    if is_quoted {
        match chars_quoted_key(cs, start) {
            Result::Ok(ke) => Ok((ke.0, ke.1, true)),
            Result::Err(e) => Err(e),
        }
    } else {
        match chars_unquoted_key(cs, start) {
            Result::Ok(ke) => Ok((ke.0, ke.1, false)),
            Result::Err(e) => Err(e),
        }
    }
}

/// Split `s` from `i` on at `d`, respecting quoted regions and backslash
/// pairs inside them; each finished piece is trimmed. `buf` holds the piece
/// being gathered and `acc` the pieces already cut.
pub open spec fn split_from(
    s: Seq<char>,
    d: char,
    i: int,
    in_q: bool,
    buf: Seq<char>,
    acc: Seq<Seq<char>>,
) -> Seq<Seq<char>>
    decreases s.len() - i,
{
    if i < 0 {
        acc
    } else if i >= s.len() {
        if buf.len() > 0 || acc.len() > 0 {
            acc.push(trim_seq(buf))
        } else {
            acc
        }
    } else if in_q && s[i] == '\\' && i + 1 < s.len() {
        split_from(s, d, i + 2, in_q, buf + seq![s[i], s[i + 1]], acc)
    } else if s[i] == '"' {
        split_from(s, d, i + 1, !in_q, buf.push('"'), acc)
    } else if s[i] == d && !in_q {
        split_from(s, d, i + 1, in_q, Seq::empty(), acc.push(trim_seq(buf)))
    } else {
        split_from(s, d, i + 1, in_q, buf.push(s[i]), acc)
    }
}

/// The pieces of `s` cut at unquoted occurrences of `d`, each trimmed; empty
/// input yields no pieces.
pub open spec fn split_delim(s: Seq<char>, d: char) -> Seq<Seq<char>> {
    split_from(s, d, 0, false, Seq::empty(), Seq::empty())
}

/// Split a line at unquoted delimiters, trimming each piece.
pub fn parse_delimited_values(input: &str, delimiter: char) -> (r: Vec<String>)
    ensures
        r@.map_values(|v: String| v@) == split_delim(input@, delimiter),
{
    let cs = chars_of(input);
    chars_delimited_values(&cs, delimiter)
}

/// [`parse_delimited_values`] over an already collected character vector.
pub fn chars_delimited_values(cs: &Vec<char>, delimiter: char) -> (r: Vec<String>)
    ensures
        r@.map_values(|v: String| v@) == split_delim(cs@, delimiter),
{
    let mut values: Vec<String> = Vec::new();
    let mut buffer: Vec<char> = Vec::new();
    let mut in_quotes: bool = false;
    let mut i: usize = 0;
    proof {
        assert(buffer@ =~= Seq::<char>::empty());
        assert(values@.map_values(|v: String| v@) =~= Seq::<Seq<char>>::empty());
    }
    while i < cs.len()
        invariant
            0 <= i <= cs@.len(),
            split_delim(cs@, delimiter) == split_from(
                cs@,
                delimiter,
                i as int,
                in_quotes,
                buffer@,
                values@.map_values(|v: String| v@),
            ),
        decreases cs.len() - i,
    {
        let ghost acc0 = values@.map_values(|v: String| v@);
        let ghost buf0 = buffer@;
        let c = cs[i];
        if in_quotes && c == '\\' && i + 1 < cs.len() {
            buffer.push(c);
            buffer.push(cs[i + 1]);
            i += 2;
            proof {
                assert(buffer@ =~= buf0 + seq![cs@[i - 2], cs@[i - 1]]);
            }
        } else if c == '"' {
            buffer.push('"');
            in_quotes = !in_quotes;
            i += 1;
        } else if c == delimiter && !in_quotes {
            let piece = trim_chars(&buffer);
            values.push(string_from_chars(piece.as_slice()));
            buffer = Vec::new();
            i += 1;
            proof {
                assert(values@.map_values(|v: String| v@) =~= acc0.push(trim_seq(buf0)));
                assert(buffer@ =~= Seq::<char>::empty());
            }
        } else {
            buffer.push(c);
            i += 1;
        }
    }
    if buffer.len() > 0 || values.len() > 0 {
        let ghost acc0 = values@.map_values(|v: String| v@);
        let piece = trim_chars(&buffer);
        values.push(string_from_chars(piece.as_slice()));
        proof {
            assert(values@.map_values(|v: String| v@) =~= acc0.push(values@.last()@));
        }
    }
    values
}

/// What the bracket segment `[LENGTH<delim>]` declares: the length and the
/// delimiter (a trailing tab or pipe overrides the default). `None` when the
/// length does not read as a usize.
pub open spec fn bracket_segment_spec(s: Seq<char>, d: char) -> Option<(int, char)> {
    let content = if s.len() > 0 && (s.last() == '\t' || s.last() == '|') {
        s.drop_last()
    } else {
        s
    };
    let delim = if s.len() > 0 && s.last() == '\t' {
        '\t'
    } else if s.len() > 0 && s.last() == '|' {
        '|'
    } else {
        d
    };
    if usize_parse_ok(content) {
        Some((digits_val(plus_stripped(content)), delim))
    } else {
        None
    }
}

/// Read the bracket segment: its declared length and delimiter.
///
/// Fails exactly when the length is not a readable usize.
pub fn parse_bracket_segment(seg: &str, default_delimiter: char) -> (r: Result<(usize, char)>)
    ensures
        match r {
            Result::Ok(ld) => bracket_segment_spec(seg@, default_delimiter) == Some(
                (ld.0 as int, ld.1),
            ),
            Result::Err(_) => bracket_segment_spec(seg@, default_delimiter) is None,
        },
{
    let cs = chars_of(seg);
    chars_bracket_segment(&cs, default_delimiter, seg)
}

/// [`parse_bracket_segment`] over an already collected character vector;
/// `orig` is the raw segment text, used in the error message.
pub fn chars_bracket_segment(cs: &Vec<char>, default_delimiter: char, orig: &str) -> (r: Result<
    (usize, char),
>)
    ensures
        match r {
            Result::Ok(ld) => bracket_segment_spec(cs@, default_delimiter) == Some(
                (ld.0 as int, ld.1),
            ),
            Result::Err(_) => bracket_segment_spec(cs@, default_delimiter) is None,
        },
{
    let mut content: Vec<char> = subrange_chars(cs, 0, cs.len());
    let mut delimiter: char = default_delimiter;
    proof {
        assert(content@ =~= cs@);
    }
    if content.len() > 0 && content[content.len() - 1] == '\t' {
        delimiter = '\t';
        content.pop();
        proof {
            assert(content@ =~= cs@.drop_last());
        }
    } else if content.len() > 0 && content[content.len() - 1] == '|' {
        delimiter = '|';
        content.pop();
        proof {
            assert(content@ =~= cs@.drop_last());
        }
    }
    match crate::text::parse_usize_chars(&content) {
        Option::Some(n) => Ok((n, delimiter)),
        Option::None => Err(ToonError::message_owned(
            String::from_str("Invalid array length: ").concat(orig),
        )),
    }
}

/// Where the array bracket of a header line sits, if anywhere.
pub ghost enum BracketStart {
    /// No bracket: this line is not an array header.
    Missing,
    /// The line opens with a quoted key whose quote never closes.
    Unterminated,
    /// The bracket sits at this position.
    At(int),
}

/// Locate the `[` that opens the header's bracket segment. A leading quoted
/// key is skipped first, so brackets inside it are not mistaken for the
/// array bracket.
pub open spec fn bracket_start_spec(s: Seq<char>) -> BracketStart {
    let t0 = first_non_ws(s, 0);
    if t0 < s.len() && s[t0] == '"' {
        match closing_quote_from(s, t0 + 1) {
            Option::None => BracketStart::Unterminated,
            Option::Some(j) => if j + 1 < s.len() && s[j + 1] == '[' {
                BracketStart::At(j + 1)
            } else {
                BracketStart::Missing
            },
        }
    } else {
        match find_char_from(s, '[', 0) {
            Option::None => BracketStart::Missing,
            Option::Some(b) => BracketStart::At(b),
        }
    }
}

/// What parsing a line as an array header yields.
pub ghost enum HeaderOutcome {
    /// The line does not match the header grammar.
    NotHeader,
    /// A quoted key or field inside the header is malformed.
    BadString,
    /// A header, with everything it declares.
    Header {
        key: Option<Seq<char>>,
        length: int,
        delimiter: char,
        fields: Option<Seq<Seq<char>>>,
        inline: Option<Seq<char>>,
    },
}

/// Where the search for the header colon starts: past a `{...}` block when
/// one opens between the bracket and the first colon after it.
pub open spec fn header_brace_end(s: Seq<char>, be: int) -> int {
    let brace_start = find_char_from(s, '{', be + 1);
    let colon_after = find_char_from(s, ':', be + 1);
    if brace_start is Some && colon_after is Some && brace_start.unwrap() < colon_after.unwrap() {
        match find_char_from(s, '}', brace_start.unwrap()) {
            Option::Some(fe) => fe + 1,
            Option::None => be + 1,
        }
    } else {
        be + 1
    }
}

/// The header's key: the trimmed text before the bracket, read as a string
/// literal when quoted. Outer `None` means a malformed quoted key.
pub open spec fn header_key_spec(s: Seq<char>, bs: int) -> Option<Option<Seq<char>>> {
    if bs > 0 {
        let raw_key = trim_seq(s.subrange(0, bs));
        if raw_key.len() > 0 && raw_key[0] == '"' {
            match string_literal_spec(raw_key) {
                Option::None => None,
                Option::Some(k) => Some(Some(k)),
            }
        } else if raw_key.len() > 0 {
            Some(Some(raw_key))
        } else {
            Some(None)
        }
    } else {
        Some(None)
    }
}

/// The header's field list: the `{...}` block before the colon, split at the
/// array's delimiter, each name read as a string literal. Outer `None` means
/// a malformed field name.
pub open spec fn header_fields_spec(s: Seq<char>, delim: char, be: int, colon: int) -> Option<
    Option<Seq<Seq<char>>>,
> {
    let brace_start = find_char_from(s, '{', be + 1);
    if brace_start is Some && brace_start.unwrap() < colon {
        match find_char_from(s, '}', brace_start.unwrap()) {
            Option::Some(fe) => if fe < colon {
                let parts = split_delim(s.subrange(brace_start.unwrap() + 1, fe), delim);
                if forall|i: int|
                    0 <= i < parts.len() ==> string_literal_spec(#[trigger] parts[i]) is Some {
                    Some(
                        Some(
                            Seq::new(parts.len(), |i: int| string_literal_spec(parts[i]).unwrap()),
                        ),
                    )
                } else {
                    None
                }
            } else {
                Some(None)
            },
            Option::None => Some(None),
        }
    } else {
        Some(None)
    }
}

/// The header read from `s` once its bracket is located at `bs .. be`.
pub open spec fn header_after_bracket(s: Seq<char>, d: char, bs: int, be: int) -> HeaderOutcome {
    let brace_end = header_brace_end(s, be);
    match find_char_from(s, ':', brace_end) {
        Option::None => HeaderOutcome::NotHeader,
        Option::Some(colon) => match header_key_spec(s, bs) {
            Option::None => HeaderOutcome::BadString,
            Option::Some(key) => match bracket_segment_spec(s.subrange(bs + 1, be), d) {
                Option::None => HeaderOutcome::NotHeader,
                Option::Some(ld) => match header_fields_spec(s, ld.1, be, colon) {
                    Option::None => HeaderOutcome::BadString,
                    Option::Some(fields) => {
                        let after = trim_seq(s.skip(colon + 1));
                        HeaderOutcome::Header {
                            key,
                            length: ld.0,
                            delimiter: ld.1,
                            fields,
                            inline: if after.len() == 0 {
                                None
                            } else {
                                Some(after)
                            },
                        }
                    },
                },
            },
        },
    }
}

/// What parsing `s` as an array header line yields, with `d` as the default
/// delimiter.
pub open spec fn header_spec(s: Seq<char>, d: char) -> HeaderOutcome {
    match bracket_start_spec(s) {
        BracketStart::Unterminated => HeaderOutcome::BadString,
        BracketStart::Missing => HeaderOutcome::NotHeader,
        BracketStart::At(bs) => match find_char_from(s, ']', bs) {
            Option::None => HeaderOutcome::NotHeader,
            Option::Some(be) => header_after_bracket(s, d, bs, be),
        },
    }
}

/// The outcome a parsed header stands for.
pub open spec fn header_result_model(h: ArrayHeaderParseResult) -> HeaderOutcome {
    HeaderOutcome::Header {
        key: match h.header.key {
            Option::Some(k) => Some(k@),
            Option::None => None,
        },
        length: h.header.length as int,
        delimiter: h.header.delimiter,
        fields: match h.header.fields {
            Option::Some(fv) => Some(fv@.map_values(|x: String| x@)),
            Option::None => None,
        },
        inline: match h.inline_values {
            Option::Some(sv) => Some(sv@),
            Option::None => None,
        },
    }
}

/// Parse a TOON array header line: `key?[LENGTH<delim>]{fields}?: inline?`.
///
/// Returns `Ok(None)` for a line that does not match the header grammar, and
/// fails exactly on a malformed quoted key or field name inside one that
/// does.
pub fn parse_array_header_line(content: &str, default_delimiter: char) -> (r: Result<
    Option<ArrayHeaderParseResult>,
>)
    ensures
        match r {
            Result::Ok(o) => match o {
                Option::None => header_spec(content@, default_delimiter) is NotHeader,
                Option::Some(h) => header_result_model(h) == header_spec(
                    content@,
                    default_delimiter,
                ),
            },
            Result::Err(_) => header_spec(content@, default_delimiter) is BadString,
        },
{
    let cs = chars_of(content);
    chars_array_header_line(&cs, default_delimiter)
}

/// [`parse_array_header_line`] over an already collected character vector.
#[verifier::rlimit(100)]
#[verifier::loop_isolation(false)]
pub fn chars_array_header_line(cs: &Vec<char>, default_delimiter: char) -> (r: Result<
    Option<ArrayHeaderParseResult>,
>)
    ensures
        match r {
            Result::Ok(o) => match o {
                Option::None => header_spec(cs@, default_delimiter) is NotHeader,
                Option::Some(h) => header_result_model(h) == header_spec(cs@, default_delimiter),
            },
            Result::Err(_) => header_spec(cs@, default_delimiter) is BadString,
        },
{
    // locate the opening bracket, skipping a leading quoted key
    let mut t0: usize = 0;
    while t0 < cs.len() && crate::text::is_whitespace_char(cs[t0])
        invariant
            0 <= t0 <= cs@.len(),
            forall|k: int| 0 <= k < t0 ==> is_ws_char(cs@[k]),
        decreases cs.len() - t0,
    {
        t0 += 1;
    }
    proof {
        crate::text::lemma_first_non_ws_agrees(cs@, 0, t0 as int);
    }
    let bracket_start: usize;
    if t0 < cs.len() && cs[t0] == '"' {
        match closing_quote_in_chars(cs, t0) {
            Option::None => {
                return Err(ToonError::message("Unterminated string: missing closing quote"));
            },
            Option::Some(j) => {
                if j + 1 < cs.len() && cs[j + 1] == '[' {
                    bracket_start = j + 1;
                } else {
                    return Ok(None);
                }
            },
        }
    } else {
        match find_char(cs, '[', 0) {
            Option::None => {
                return Ok(None);
            },
            Option::Some(b) => {
                bracket_start = b;
            },
        }
    }
    assert(bracket_start_spec(cs@) == BracketStart::At(bracket_start as int));

    let bracket_end: usize;
    match find_char(cs, ']', bracket_start) {
        Option::None => {
            return Ok(None);
        },
        Option::Some(be) => {
            bracket_end = be;
        },
    }
    assert(bracket_start < bracket_end);

    // where the colon search starts: past a `{...}` block when one opens
    // before the first colon after the bracket
    let mut brace_end: usize = bracket_end + 1;
    let brace_start = find_char(cs, '{', bracket_end + 1);
    let colon_after_bracket = find_char(cs, ':', bracket_end + 1);
    match (brace_start, colon_after_bracket) {
        (Option::Some(bst), Option::Some(cab)) => {
            if bst < cab {
                match find_char(cs, '}', bst) {
                    Option::Some(fe) => {
                        brace_end = fe + 1;
                    },
                    Option::None => {},
                }
            }
        },
        _ => {},
    }
    assert(brace_end == header_brace_end(cs@, bracket_end as int));

    let colon_index: usize;
    match find_char(cs, ':', brace_end) {
        Option::None => {
            return Ok(None);
        },
        Option::Some(ci) => {
            colon_index = ci;
        },
    }

    // the key before the bracket
    let mut key: Option<String> = None;
    if bracket_start > 0 {
        let before = subrange_chars(cs, 0, bracket_start);
        let raw_key = trim_chars(&before);
        if raw_key.len() > 0 && raw_key[0] == '"' {
            proof {
                crate::text::lemma_trim_idempotent(before@);
            }
            match chars_string_literal(&raw_key) {
                Result::Ok(k) => {
                    key = Some(k);
                },
                Result::Err(e) => {
                    return Err(e);
                },
            }
        } else if raw_key.len() > 0 {
            key = Some(string_from_chars(raw_key.as_slice()));
        }
    }
    let ghost key_model: Option<Seq<char>> = match key {
        Option::Some(ref k) => Some(k@),
        Option::None => None,
    };
    assert(header_key_spec(cs@, bracket_start as int) == Some(key_model));

    // the declared length and delimiter
    let bracket_content = subrange_chars(cs, bracket_start + 1, bracket_end);
    let bracket_content_str = string_from_chars(bracket_content.as_slice());
    let length: usize;
    let delimiter: char;
    match chars_bracket_segment(&bracket_content, default_delimiter, bracket_content_str.as_str())
        {
        Result::Ok(ld) => {
            length = ld.0;
            delimiter = ld.1;
        },
        Result::Err(_) => {
            return Ok(None);
        },
    }

    // the tabular field list, when a brace block closes before the colon
    let mut fields: Option<Vec<String>> = None;
    match brace_start {
        Option::Some(bst) => {
            if bst < colon_index {
                match find_char(cs, '}', bst) {
                    Option::Some(fe) => {
                        if fe < colon_index {
                            let fields_content = subrange_chars(cs, bst + 1, fe);
                            let parts = chars_delimited_values(&fields_content, delimiter);
                            let ghost parts_model = split_delim(
                                cs@.subrange(bst + 1, fe as int),
                                delimiter,
                            );
                            let mut parsed: Vec<String> = Vec::new();
                            let mut i: usize = 0;
                            while i < parts.len()
                                invariant
                                    0 <= i <= parts@.len(),
                                    parts@.map_values(|v: String| v@) == parts_model,
                                    parsed@.len() == i,
                                    forall|k: int|
                                        0 <= k < i ==> string_literal_spec(parts_model[k]) == Some(
                                            #[trigger] parsed@[k]@,
                                        ),
                                decreases parts@.len() - i,
                            {
                                proof {
                                    assert(parts_model[i as int] == parts@[i as int]@);
                                }
                                match parse_string_literal(parts[i].as_str()) {
                                    Result::Ok(f) => {
                                        parsed.push(f);
                                    },
                                    Result::Err(e) => {
                                        proof {
                                            assert(string_literal_spec(
                                                parts_model[i as int],
                                            ) is None);
                                        }
                                        return Err(e);
                                    },
                                }
                                i += 1;
                            }
                            proof {
                                assert(parts_model.len() == parts@.len());
                                assert forall|k: int| 0 <= k < parts_model.len() implies
                                    string_literal_spec(#[trigger] parts_model[k]) is Some by {
                                    assert(string_literal_spec(parts_model[k]) == Some(
                                        parsed@[k]@,
                                    ));
                                }
                                assert(parsed@.map_values(|x: String| x@) =~= Seq::new(
                                    parts_model.len(),
                                    |k: int| string_literal_spec(parts_model[k]).unwrap(),
                                ));
                            }
                            fields = Some(parsed);
                        }
                    },
                    Option::None => {},
                }
            }
        },
        Option::None => {},
    }
    let ghost fields_model: Option<Seq<Seq<char>>> = match fields {
        Option::Some(ref fv) => Some(fv@.map_values(|x: String| x@)),
        Option::None => None,
    };
    assert(header_fields_spec(cs@, delimiter, bracket_end as int, colon_index as int) == Some(
        fields_model,
    ));

    // whatever follows the colon on the same line
    let after = subrange_chars(cs, colon_index + 1, cs.len());
    let after_trimmed = trim_chars(&after);
    proof {
        assert(cs@.subrange(colon_index + 1, cs@.len() as int) =~= cs@.skip(colon_index + 1));
    }
    let inline_values: Option<String> = if after_trimmed.len() == 0 {
        None
    } else {
        Some(string_from_chars(after_trimmed.as_slice()))
    };

    Ok(
        Some(
            ArrayHeaderParseResult {
                header: ArrayHeaderInfo { key, length, delimiter, fields },
                inline_values,
            },
        ),
    )
}

/// Does the line open with a bracket (after leading whitespace) and carry an
/// unquoted colon: the shape of a keyless array header?
pub open spec fn array_header_content(s: Seq<char>) -> bool {
    &&& first_non_ws(s, 0) < s.len()
    &&& s[first_non_ws(s, 0)] == '['
    &&& find_unquoted_from(s, ':', 0, false) is Some
}

/// Executable form of [`array_header_content`].
pub fn is_array_header_content(content: &str) -> (r: bool)
    ensures
        r == array_header_content(content@),
{
    let cs = chars_of(content);
    chars_array_header_content(&cs)
}

/// [`is_array_header_content`] over an already collected character vector.
pub fn chars_array_header_content(cs: &Vec<char>) -> (r: bool)
    ensures
        r == array_header_content(cs@),
{
    let mut i: usize = 0;
    while i < cs.len() && crate::text::is_whitespace_char(cs[i])
        invariant
            0 <= i <= cs@.len(),
            forall|k: int| 0 <= k < i ==> is_ws_char(cs@[k]),
        decreases cs.len() - i,
    {
        i += 1;
    }
    proof {
        crate::text::lemma_first_non_ws_agrees(cs@, 0, i as int);
    }
    if i >= cs.len() || cs[i] != '[' {
        return false;
    }
    match find_unquoted_in_chars(cs, ':', 0) {
        Option::Some(_) => true,
        Option::None => false,
    }
}

/// Does the line carry an unquoted colon: the shape of a key-value line?
pub open spec fn key_value_content(s: Seq<char>) -> bool {
    find_unquoted_from(s, ':', 0, false) is Some
}

/// Executable form of [`key_value_content`].
pub fn is_key_value_content(content: &str) -> (r: bool)
    ensures
        r == key_value_content(content@),
{
    let cs = chars_of(content);
    match find_unquoted_in_chars(&cs, ':', 0) {
        Option::Some(_) => true,
        Option::None => false,
    }
}

} // verus!
