//! The command-line surface's decisions: which delimiter a flag names,
//! whether a run encodes or decodes, whether input comes from standard
//! input, and the token-count estimate shown with `--stats`.

use vstd::prelude::*;

verus! {

use crate::text::{is_ws_char, is_whitespace_char, chars_of};

/// Key folding switch as the command line offers it.
#[derive(Debug, Clone, Copy, PartialEq, Eq, Structural)]
pub enum KeyFoldingArg {
    Off,
    Safe,
}

/// Path expansion switch as the command line offers it.
#[derive(Debug, Clone, Copy, PartialEq, Eq, Structural)]
pub enum ExpandPathsArg {
    Off,
    Safe,
}

/// Whether a run encodes JSON to TOON or decodes TOON to JSON.
#[derive(Debug, Clone, Copy, PartialEq, Eq, Structural)]
pub enum Mode {
    Encode,
    Decode,
}

/// The command-line arguments, as plain values.
#[derive(Debug)]
pub struct Args {
    /// Input file path; `None` or `-` reads standard input.
    pub input: Option<String>,
    /// Output file path; `None` writes standard output.
    pub output: Option<String>,
    /// Force encoding.
    pub encode: bool,
    /// Force decoding.
    pub decode: bool,
    /// Array delimiter.
    pub delimiter: char,
    /// Indentation width in spaces.
    pub indent: u8,
    /// Disable strict decoding.
    pub no_strict: bool,
    /// Key folding mode.
    pub key_folding: KeyFoldingArg,
    /// Maximum folded segment count.
    pub flatten_depth: Option<usize>,
    /// Path expansion mode.
    pub expand_paths: ExpandPathsArg,
    /// Show token statistics after encoding.
    pub stats: bool,
}

/// The delimiter a flag value names, if it names one.
pub open spec fn delimiter_of(s: Seq<char>) -> Option<char> {
    if s == seq![','] || s == seq!['c', 'o', 'm', 'm', 'a'] {
        Some(',')
    } else if s == seq!['|'] || s == seq!['p', 'i', 'p', 'e'] {
        Some('|')
    } else if s == seq!['\\', 't'] || s == seq!['\t'] || s == seq!['t', 'a', 'b'] {
        Some('\t')
    } else {
        None
    }
}

/// Read a delimiter flag: comma, pipe, or tab, by symbol or by name.
///
/// Fails exactly on any other value.
pub fn parse_delimiter(s: &str) -> (r: Result<char, String>)
    ensures
        match r {
            Result::Ok(c) => delimiter_of(s@) == Some(c),
            Result::Err(_) => delimiter_of(s@) is None,
        },
{
    let cs = chars_of(s);
    if cs.len() == 1 && cs[0] == ',' {
        proof {
            assert(cs@ =~= seq![',']);
        }
        return Ok(',');
    }
    if cs.len() == 5 && cs[0] == 'c' && cs[1] == 'o' && cs[2] == 'm' && cs[3] == 'm' && cs[4]
        == 'a' {
        proof {
            assert(cs@ =~= seq!['c', 'o', 'm', 'm', 'a']);
        }
        return Ok(',');
    }
    if cs.len() == 1 && cs[0] == '|' {
        proof {
            assert(cs@ =~= seq!['|']);
        }
        return Ok('|');
    }
    if cs.len() == 4 && cs[0] == 'p' && cs[1] == 'i' && cs[2] == 'p' && cs[3] == 'e' {
        proof {
            assert(cs@ =~= seq!['p', 'i', 'p', 'e']);
        }
        return Ok('|');
    }
    if cs.len() == 2 && cs[0] == '\\' && cs[1] == 't' {
        proof {
            assert(cs@ =~= seq!['\\', 't']);
        }
        return Ok('\t');
    }
    if cs.len() == 1 && cs[0] == '\t' {
        proof {
            assert(cs@ =~= seq!['\t']);
        }
        return Ok('\t');
    }
    if cs.len() == 3 && cs[0] == 't' && cs[1] == 'a' && cs[2] == 'b' {
        proof {
            assert(cs@ =~= seq!['t', 'a', 'b']);
        }
        return Ok('\t');
    }
    proof {
        assert(cs@ != seq![',']) by {
            if cs@ == seq![','] {
                assert(cs@.len() == 1 && cs@[0] == ',');
            }
        }
        assert(cs@ != seq!['c', 'o', 'm', 'm', 'a']) by {
            if cs@ == seq!['c', 'o', 'm', 'm', 'a'] {
                assert(cs@.len() == 5 && cs@[0] == 'c' && cs@[1] == 'o' && cs@[2] == 'm' && cs@[3]
                    == 'm' && cs@[4] == 'a');
            }
        }
        assert(cs@ != seq!['|']) by {
            if cs@ == seq!['|'] {
                assert(cs@.len() == 1 && cs@[0] == '|');
            }
        }
        assert(cs@ != seq!['p', 'i', 'p', 'e']) by {
            if cs@ == seq!['p', 'i', 'p', 'e'] {
                assert(cs@.len() == 4 && cs@[0] == 'p' && cs@[1] == 'i' && cs@[2] == 'p' && cs@[3]
                    == 'e');
            }
        }
        assert(cs@ != seq!['\\', 't']) by {
            if cs@ == seq!['\\', 't'] {
                assert(cs@.len() == 2 && cs@[0] == '\\' && cs@[1] == 't');
            }
        }
        assert(cs@ != seq!['\t']) by {
            if cs@ == seq!['\t'] {
                assert(cs@.len() == 1 && cs@[0] == '\t');
            }
        }
        assert(cs@ != seq!['t', 'a', 'b']) by {
            if cs@ == seq!['t', 'a', 'b'] {
                assert(cs@.len() == 3 && cs@[0] == 't' && cs@[1] == 'a' && cs@[2] == 'b');
            }
        }
    }
    let mut msg = String::from_str("Invalid delimiter \"");
    msg.append(s);
    msg.append("\". Valid delimiters are: comma (,), tab (\\t), pipe (|)");
    Err(msg)
}

/// Index after the last `/` of the path, where its file name starts.
pub open spec fn file_name_start(s: Seq<char>, i: int) -> int
    decreases i,
{
    if i <= 0 {
        0
    } else if s[i - 1] == '/' {
        i
    } else {
        file_name_start(s, i - 1)
    }
}

/// Position of the last dot at or after `from`, if any.
pub open spec fn last_dot_from(s: Seq<char>, from: int, i: int) -> Option<int>
    decreases i - from,
{
    if i <= from {
        None
    } else if s[i - 1] == '.' {
        Some(i - 1)
    } else {
        last_dot_from(s, from, i - 1)
    }
}

/// The path's extension: what follows the last dot of its file name, when
/// that dot is not the name's first character.
pub open spec fn extension_of(s: Seq<char>) -> Option<Seq<char>> {
    let name_start = file_name_start(s, s.len() as int);
    match last_dot_from(s, name_start, s.len() as int) {
        Option::None => None,
        Option::Some(d) => if d == name_start {
            None
        } else {
            Some(s.subrange(d + 1, s.len() as int))
        },
    }
}

/// ASCII-lowercase equality against a lowercase word.
pub open spec fn eq_ascii_lower(s: Seq<char>, w: Seq<char>) -> bool {
    s.len() == w.len() && forall|k: int|
        0 <= k < s.len() ==> (#[trigger] s[k]) == w[k] || (('A' <= s[k] && s[k] <= 'Z') && (
        s[k] as int + 32) == w[k] as int)
}

/// The mode the arguments pick: an explicit flag wins; else a `.json` input
/// encodes and a `.toon` input decodes (extension compared ASCII
/// case-insensitively); else encode.
pub open spec fn mode_of(
    encode_flag: bool,
    decode_flag: bool,
    input: Option<Seq<char>>,
) -> Mode {
    if encode_flag {
        Mode::Encode
    } else if decode_flag {
        Mode::Decode
    } else {
        match input {
            Option::Some(path) => match extension_of(path) {
                Option::Some(ext) => if eq_ascii_lower(ext, seq!['j', 's', 'o', 'n']) {
                    Mode::Encode
                } else if eq_ascii_lower(ext, seq!['t', 'o', 'o', 'n']) {
                    Mode::Decode
                } else {
                    Mode::Encode
                },
                Option::None => Mode::Encode,
            },
            Option::None => Mode::Encode,
        }
    }
}

impl Args {
    /// Detect the operation mode from the flags and the input extension.
    pub fn detect_mode(&self) -> (r: Mode)
        ensures
            r == mode_of(
                self.encode,
                self.decode,
                match self.input {
                    Option::Some(ref p) => Some(p@),
                    Option::None => None,
                },
            ),
    {
        if self.encode {
            return Mode::Encode;
        }
        if self.decode {
            return Mode::Decode;
        }
        match &self.input {
            Option::Some(path) => {
                match path_extension(path.as_str()) {
                    Option::Some(ext) => {
                        if ext_matches_lower(&ext, 'j', 's', 'o', 'n') {
                            Mode::Encode
                        } else if ext_matches_lower(&ext, 't', 'o', 'o', 'n') {
                            Mode::Decode
                        } else {
                            Mode::Encode
                        }
                    },
                    Option::None => Mode::Encode,
                }
            },
            Option::None => Mode::Encode,
        }
    }

    /// Does this run read from standard input: no path, or the path `-`?
    pub fn is_stdin(&self) -> (r: bool)
        ensures
            r == match self.input {
                Option::Some(ref p) => p@ == seq!['-'],
                Option::None => true,
            },
    {
        match &self.input {
            Option::None => true,
            Option::Some(p) => {
                let cs = chars_of(p.as_str());
                let r = cs.len() == 1 && cs[0] == '-';
                proof {
                    if r {
                        assert(cs@ =~= seq!['-']);
                    } else {
                        assert(cs@ != seq!['-']) by {
                            if cs@ == seq!['-'] {
                                assert(cs@.len() == 1 && cs@[0] == '-');
                            }
                        }
                    }
                }
                r
            },
        }
    }
}

/// The path's extension characters, per [`extension_of`].
fn path_extension(path: &str) -> (r: Option<Vec<char>>)
    ensures
        match r {
            Option::Some(ext) => extension_of(path@) == Some(ext@),
            Option::None => extension_of(path@) is None,
        },
{
    let cs = chars_of(path);
    let mut name_start: usize = cs.len();
    while name_start > 0 && cs[name_start - 1] != '/'
        invariant
            0 <= name_start <= cs@.len(),
            cs@ == path@,
            file_name_start(cs@, cs@.len() as int) == file_name_start(cs@, name_start as int),
        decreases name_start,
    {
        name_start -= 1;
    }
    proof {
        assert(file_name_start(cs@, name_start as int) == name_start);
    }
    let mut d: usize = cs.len();
    let mut dot: Option<usize> = None;
    while d > name_start && dot.is_none()
        invariant
            name_start <= d <= cs@.len(),
            cs@ == path@,
            dot is None ==> last_dot_from(cs@, name_start as int, cs@.len() as int)
                == last_dot_from(cs@, name_start as int, d as int),
            dot matches Some(p) ==> last_dot_from(cs@, name_start as int, cs@.len() as int)
                == Some(p as int) && name_start <= p < cs@.len(),
        decreases d,
    {
        if cs[d - 1] == '.' {
            dot = Some(d - 1);
        }
        d -= 1;
    }
    match dot {
        Option::None => {
            proof {
                assert(last_dot_from(cs@, name_start as int, name_start as int) is None);
            }
            None
        },
        Option::Some(p) => {
            if p == name_start {
                None
            } else {
                Some(crate::text::subrange_chars(&cs, p + 1, cs.len()))
            }
        },
    }
}

/// Does the four-character extension match the word, ASCII
/// case-insensitively?
fn ext_matches_lower(ext: &Vec<char>, a: char, b: char, c: char, d: char) -> (r: bool)
    requires
        'a' <= a <= 'z',
        'a' <= b <= 'z',
        'a' <= c <= 'z',
        'a' <= d <= 'z',
    ensures
        r == eq_ascii_lower(ext@, seq![a, b, c, d]),
{
    if ext.len() != 4 {
        proof {
            assert(!eq_ascii_lower(ext@, seq![a, b, c, d]));
        }
        return false;
    }
    let r = char_matches_lower(ext[0], a) && char_matches_lower(ext[1], b) && char_matches_lower(
        ext[2],
        c,
    ) && char_matches_lower(ext[3], d);
    proof {
        let w = seq![a, b, c, d];
        if r {
            assert(eq_ascii_lower(ext@, w)) by {
                assert(forall|k: int| 0 <= k < 4 ==> (#[trigger] ext@[k]) == w[k] || (('A'
                    <= ext@[k] && ext@[k] <= 'Z') && (ext@[k] as int + 32) == w[k] as int)) by {
                    assert(ext@[0] == w[0] || (('A' <= ext@[0] && ext@[0] <= 'Z') && (
                    ext@[0] as int + 32) == w[0] as int));
                    assert(ext@[1] == w[1] || (('A' <= ext@[1] && ext@[1] <= 'Z') && (
                    ext@[1] as int + 32) == w[1] as int));
                    assert(ext@[2] == w[2] || (('A' <= ext@[2] && ext@[2] <= 'Z') && (
                    ext@[2] as int + 32) == w[2] as int));
                    assert(ext@[3] == w[3] || (('A' <= ext@[3] && ext@[3] <= 'Z') && (
                    ext@[3] as int + 32) == w[3] as int));
                }
            }
        }
    }
    r
}

fn char_matches_lower(c: char, w: char) -> (r: bool)
    requires
        'a' <= w <= 'z',
    ensures
        r == (c == w || (('A' <= c && c <= 'Z') && (c as int + 32) == w as int)),
{
    c == w || ('A' <= c && c <= 'Z' && (c as u32 + 32) == w as u32)
}

/// Count of non-whitespace characters at or after `i`.
pub open spec fn non_ws_from(s: Seq<char>, i: int) -> int
    decreases s.len() - i,
{
    if i < 0 || i >= s.len() {
        0
    } else {
        (if is_ws_char(s[i]) {
            0int
        } else {
            1int
        }) + non_ws_from(s, i + 1)
    }
}

/// Count of words starting at or after `i`, where `prev_ws` says whether a
/// word could start right here.
pub open spec fn words_from(s: Seq<char>, i: int, prev_ws: bool) -> int
    decreases s.len() - i,
{
    if i < 0 || i >= s.len() {
        0
    } else {
        (if !is_ws_char(s[i]) && prev_ws {
            1int
        } else {
            0int
        }) + words_from(s, i + 1, is_ws_char(s[i]))
    }
}

/// The token estimate: non-whitespace characters divided by four, floored
/// at the whitespace-separated word count, and at least one.
pub open spec fn token_estimate(s: Seq<char>) -> int {
    let ce = non_ws_from(s, 0) / 4;
    let wc = words_from(s, 0, true);
    if ce > wc {
        if ce < 1 {
            1
        } else {
            ce
        }
    } else {
        if wc < 1 {
            1
        } else {
            wc
        }
    }
}

/// Estimate how many tokens a model would see in `text`.
pub fn estimate_tokens(text: &str) -> (r: usize)
    ensures
        r as int == token_estimate(text@),
{
    let cs = chars_of(text);
    let mut chars_count: usize = 0;
    let mut words: usize = 0;
    let mut i: usize = 0;
    let mut prev_ws: bool = true;
    while i < cs.len()
        invariant
            0 <= i <= cs@.len(),
            cs@ == text@,
            chars_count <= i,
            words <= i,
            chars_count + non_ws_from(cs@, i as int) == non_ws_from(cs@, 0),
            words + words_from(cs@, i as int, prev_ws) == words_from(cs@, 0, true),
        decreases cs.len() - i,
    {
        let ws = is_whitespace_char(cs[i]);
        if !ws {
            chars_count += 1;
            if prev_ws {
                words += 1;
            }
        }
        prev_ws = ws;
        i += 1;
    }
    proof {
        lemma_counts_nonneg(cs@, 0);
        lemma_words_nonneg(cs@, 0, true);
    }
    let char_estimate = chars_count / 4;
    let mut best = if char_estimate > words {
        char_estimate
    } else {
        words
    };
    if best < 1 {
        best = 1;
    }
    best
}

proof fn lemma_counts_nonneg(s: Seq<char>, i: int)
    ensures
        non_ws_from(s, i) >= 0,
    decreases s.len() - i,
{
    if 0 <= i < s.len() {
        lemma_counts_nonneg(s, i + 1);
    }
}

proof fn lemma_words_nonneg(s: Seq<char>, i: int, prev: bool)
    ensures
        words_from(s, i, prev) >= 0,
    decreases s.len() - i,
{
    if 0 <= i < s.len() {
        lemma_words_nonneg(s, i + 1, is_ws_char(s[i]));
    }
}

} // verus!
