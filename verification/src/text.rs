//! Character-level text utilities shared by the scanner, the tokenizer and
//! the encoders: whitespace and trimming, escape sequences for quoted string
//! literals, and quote-aware character searches.

use vstd::prelude::*;

verus! {

use vstd::std_specs::iter::IteratorSpec;

/// The characters that Rust's `char::is_whitespace` recognizes: the Unicode
/// `White_Space` property, written out code point by code point.
pub open spec fn is_ws_char(c: char) -> bool {
    let u = c as u32;
    ||| (0x9 <= u && u <= 0xd)
    ||| u == 0x20
    ||| u == 0x85
    ||| u == 0xa0
    ||| u == 0x1680
    ||| (0x2000 <= u && u <= 0x200a)
    ||| u == 0x2028
    ||| u == 0x2029
    ||| u == 0x202f
    ||| u == 0x205f
    ||| u == 0x3000
}

/// Executable form of [`is_ws_char`].
pub fn is_whitespace_char(c: char) -> (r: bool)
    ensures
        r == is_ws_char(c),
{
    let u = c as u32;
    (0x9 <= u && u <= 0xd) || u == 0x20 || u == 0x85 || u == 0xa0 || u == 0x1680 || (0x2000 <= u
        && u <= 0x200a) || u == 0x2028 || u == 0x2029 || u == 0x202f || u == 0x205f || u == 0x3000
}

/// Index of the first character of `s` at or after `from` that is not
/// whitespace, or `s.len()` if all of them are.
pub open spec fn first_non_ws(s: Seq<char>, from: int) -> int
    decreases s.len() - from,
{
    if from < 0 {
        first_non_ws(s, 0)
    } else if from >= s.len() {
        s.len() as int
    } else if is_ws_char(s[from]) {
        first_non_ws(s, from + 1)
    } else {
        from
    }
}

/// Index one past the last non-whitespace character of `s` before `upto`,
/// or 0 if there is none.
pub open spec fn last_non_ws(s: Seq<char>, upto: int) -> int
    decreases upto,
{
    if upto > s.len() {
        last_non_ws(s, s.len() as int)
    } else if upto <= 0 {
        0
    } else if is_ws_char(s[upto - 1]) {
        last_non_ws(s, upto - 1)
    } else {
        upto
    }
}

/// What trimming whitespace from both ends of `s` leaves.
pub open spec fn trim_seq(s: Seq<char>) -> Seq<char> {
    let a = first_non_ws(s, 0);
    let b = last_non_ws(s, s.len() as int);
    if a <= b {
        s.subrange(a, b)
    } else {
        Seq::empty()
    }
}

/// A sequence is already trimmed when trimming changes nothing.
pub open spec fn is_trimmed(s: Seq<char>) -> bool {
    trim_seq(s) == s
}

proof fn lemma_first_non_ws_bounds(s: Seq<char>, from: int)
    requires
        0 <= from <= s.len(),
    ensures
        from <= first_non_ws(s, from) <= s.len(),
        forall|k: int| from <= k < first_non_ws(s, from) ==> is_ws_char(s[k]),
        first_non_ws(s, from) < s.len() ==> !is_ws_char(s[first_non_ws(s, from)]),
    decreases s.len() - from,
{
    if from < s.len() && is_ws_char(s[from]) {
        lemma_first_non_ws_bounds(s, from + 1);
    }
}

proof fn lemma_last_non_ws_bounds(s: Seq<char>, upto: int)
    requires
        0 <= upto <= s.len(),
    ensures
        0 <= last_non_ws(s, upto) <= upto,
        forall|k: int| last_non_ws(s, upto) <= k < upto ==> is_ws_char(s[k]),
        last_non_ws(s, upto) > 0 ==> !is_ws_char(s[last_non_ws(s, upto) - 1]),
    decreases upto,
{
    if upto > 0 && is_ws_char(s[upto - 1]) {
        lemma_last_non_ws_bounds(s, upto - 1);
    }
}

/// Trim whitespace from both ends of a character vector.
pub fn trim_chars(s: &Vec<char>) -> (r: Vec<char>)
    ensures
        r@ == trim_seq(s@),
{
    let mut a: usize = 0;
    while a < s.len() && is_whitespace_char(s[a])
        invariant
            0 <= a <= s.len(),
            forall|k: int| 0 <= k < a ==> is_ws_char(s@[k]),
        decreases s.len() - a,
    {
        a += 1;
    }
    let mut b: usize = s.len();
    while b > a && is_whitespace_char(s[b - 1])
        invariant
            a <= b <= s.len(),
            forall|k: int| 0 <= k < a ==> is_ws_char(s@[k]),
            forall|k: int| b <= k < s.len() ==> is_ws_char(s@[k]),
        decreases b,
    {
        b -= 1;
    }
    let mut r: Vec<char> = Vec::new();
    let mut i: usize = a;
    while i < b
        invariant
            a <= i <= b <= s.len(),
            r@ == s@.subrange(a as int, i as int),
        decreases b - i,
    {
        r.push(s[i]);
        i += 1;
        proof {
            assert(r@ =~= s@.subrange(a as int, i as int));
        }
    }
    proof {
        lemma_trim_from_scan(s@, a as int, b as int);
    }
    r
}

/// A two-sided whitespace scan that stopped at `a` from the left and `b` from
/// the right has found exactly the trimmed subrange.
proof fn lemma_trim_from_scan(s: Seq<char>, a: int, b: int)
    requires
        0 <= a <= b <= s.len(),
        forall|k: int| 0 <= k < a ==> is_ws_char(s[k]),
        forall|k: int| b <= k < s.len() ==> is_ws_char(s[k]),
        a < b ==> !is_ws_char(s[a]) && !is_ws_char(s[b - 1]),
        a == b ==> a == s.len(),
    ensures
        a == b ==> trim_seq(s) == Seq::<char>::empty(),
        a < b ==> trim_seq(s) == s.subrange(a, b),
{
    if a < b {
        lemma_first_non_ws_agrees(s, 0, a);
        lemma_last_non_ws_agrees(s, s.len() as int, b);
        assert(trim_seq(s) == s.subrange(a, b));
    } else {
        // the left scan ran off the end: every character is whitespace
        lemma_first_non_ws_agrees(s, 0, a);
        lemma_last_non_ws_bounds(s, s.len() as int);
        if s.len() == 0 {
            assert(trim_seq(s) =~= Seq::<char>::empty());
        } else {
            lemma_last_non_ws_agrees(s, s.len() as int, 0);
            assert(trim_seq(s) =~= Seq::<char>::empty());
        }
    }
}

pub proof fn lemma_first_non_ws_agrees(s: Seq<char>, from: int, a: int)
    requires
        0 <= from <= a <= s.len(),
        forall|k: int| from <= k < a ==> is_ws_char(s[k]),
        a < s.len() ==> !is_ws_char(s[a]),
    ensures
        first_non_ws(s, from) == if a < s.len() { a } else { s.len() as int },
    decreases a - from,
{
    if from < a {
        lemma_first_non_ws_agrees(s, from + 1, a);
    }
}

proof fn lemma_last_non_ws_agrees(s: Seq<char>, upto: int, b: int)
    requires
        0 <= b <= upto <= s.len(),
        forall|k: int| b <= k < upto ==> is_ws_char(s[k]),
        b > 0 ==> !is_ws_char(s[b - 1]),
    ensures
        last_non_ws(s, upto) == b,
    decreases upto,
{
    if b < upto {
        lemma_last_non_ws_agrees(s, upto - 1, b);
    }
}

/// A sequence with no whitespace at either end is already trimmed.
pub proof fn lemma_trim_of_unpadded(s: Seq<char>)
    requires
        s.len() > 0,
        !is_ws_char(s[0]),
        !is_ws_char(s.last()),
    ensures
        trim_seq(s) == s,
{
    lemma_first_non_ws_agrees(s, 0, 0);
    lemma_last_non_ws_agrees(s, s.len() as int, s.len() as int);
    assert(trim_seq(s) =~= s);
}

/// Trimming is idempotent.
pub proof fn lemma_trim_idempotent(s: Seq<char>)
    ensures
        trim_seq(trim_seq(s)) == trim_seq(s),
{
    lemma_first_non_ws_bounds(s, 0);
    lemma_last_non_ws_bounds(s, s.len() as int);
    let a = first_non_ws(s, 0);
    let b = last_non_ws(s, s.len() as int);
    let t = trim_seq(s);
    if t.len() == 0 {
        assert(trim_seq(t) =~= t);
    } else {
        assert(a < b);
        assert(t[0] == s[a] && !is_ws_char(t[0]));
        assert(t[t.len() - 1] == s[b - 1] && !is_ws_char(t[t.len() - 1]));
        assert(first_non_ws(t, 0) == 0);
        assert(last_non_ws(t, t.len() as int) == t.len());
        assert(trim_seq(t) =~= t);
    }
}

/// The characters of a string slice, collected into a vector so that the
/// verified logic can index them directly.
pub fn chars_of(s: &str) -> (r: Vec<char>)
    ensures
        r@ == s@,
{
    broadcast use vstd::string::group_string_axioms;

    let mut it = s.chars();
    let mut r: Vec<char> = Vec::new();
    loop
        invariant_except_break
            it.obeys_prophetic_iter_laws(),
            it.decrease() is Some,
            r@ + it.remaining() == s@,
        ensures
            r@ == s@,
        decreases it.decrease()->0,
    {
        let ghost prev = it;
        match it.next() {
            Some(c) => {
                proof {
                    vstd::string::next_postcondition(&prev, &it, Some(c));
                }
                r.push(c);
            },
            None => {
                proof {
                    vstd::string::next_postcondition(&prev, &it, None);
                    assert(prev.remaining().len() == 0);
                    assert(r@ =~= s@);
                }
                break ;
            },
        }
    }
    r
}

/// Relies on `String: FromIterator<char>`: collecting characters yields the
/// string with exactly those characters.
#[verifier::external_body]
pub fn string_from_chars(s: &[char]) -> (r: String)
    ensures
        r@ == s@,
{
    s.iter().collect()
}

/// Does `s` contain character `c`?
pub fn contains_char(s: &Vec<char>, c: char) -> (r: bool)
    ensures
        r == s@.contains(c),
{
    let mut i: usize = 0;
    while i < s.len()
        invariant
            0 <= i <= s.len(),
            forall|k: int| 0 <= k < i ==> s@[k] != c,
        decreases s.len() - i,
    {
        if s[i] == c {
            return true;
        }
        i += 1;
    }
    false
}

/// How one character is written inside a quoted TOON string literal.
pub open spec fn escape_char(c: char) -> Seq<char> {
    if c == '\\' {
        seq!['\\', '\\']
    } else if c == '"' {
        seq!['\\', '"']
    } else if c == '\n' {
        seq!['\\', 'n']
    } else if c == '\r' {
        seq!['\\', 'r']
    } else if c == '\t' {
        seq!['\\', 't']
    } else {
        seq![c]
    }
}

/// How a whole string is written inside a quoted TOON string literal.
pub open spec fn escape_seq(s: Seq<char>) -> Seq<char>
    decreases s.len(),
{
    if s.len() == 0 {
        Seq::empty()
    } else {
        escape_char(s[0]) + escape_seq(s.drop_first())
    }
}

pub proof fn lemma_escape_append(a: Seq<char>, b: Seq<char>)
    ensures
        escape_seq(a + b) == escape_seq(a) + escape_seq(b),
    decreases a.len(),
{
    if a.len() == 0 {
        assert(a + b =~= b);
        assert(escape_seq(a) + escape_seq(b) =~= escape_seq(b));
    } else {
        lemma_escape_append(a.drop_first(), b);
        assert((a + b).drop_first() =~= a.drop_first() + b);
        assert(escape_char(a[0]) + (escape_seq(a.drop_first()) + escape_seq(b)) =~= (escape_char(
            a[0],
        ) + escape_seq(a.drop_first())) + escape_seq(b));
    }
}

pub proof fn lemma_escape_one(c: char)
    ensures
        escape_seq(seq![c]) == escape_char(c),
{
    assert(seq![c].drop_first() =~= Seq::<char>::empty());
    assert(escape_char(c) + escape_seq(Seq::<char>::empty()) =~= escape_char(c));
}

/// Escape a string for inclusion in a quoted TOON literal: backslash, double
/// quote, newline, carriage return and tab get a backslash escape; everything
/// else is copied through.
pub fn escape_string(value: &str) -> (out: String)
    ensures
        out@ == escape_seq(value@),
{
    let cs = chars_of(value);
    let mut out: Vec<char> = Vec::new();
    let mut i: usize = 0;
    while i < cs.len()
        invariant
            0 <= i <= cs.len(),
            cs@ == value@,
            out@ == escape_seq(cs@.take(i as int)),
        decreases cs.len() - i,
    {
        let ghost before = cs@.take(i as int);
        let c = cs[i];
        if c == '\\' {
            out.push('\\');
            out.push('\\');
        } else if c == '"' {
            out.push('\\');
            out.push('"');
        } else if c == '\n' {
            out.push('\\');
            out.push('n');
        } else if c == '\r' {
            out.push('\\');
            out.push('r');
        } else if c == '\t' {
            out.push('\\');
            out.push('t');
        } else {
            out.push(c);
        }
        i += 1;
        proof {
            assert(cs@.take(i as int) =~= before + seq![c]);
            lemma_escape_append(before, seq![c]);
            lemma_escape_one(c);
        }
    }
    proof {
        assert(cs@.take(cs@.len() as int) =~= cs@);
    }
    string_from_chars(out.as_slice())
}

/// The character an escape code stands for, if the code is one of the five
/// accepted ones.
pub open spec fn unescape_code(c: char) -> Option<char> {
    if c == 'n' {
        Some('\n')
    } else if c == 't' {
        Some('\t')
    } else if c == 'r' {
        Some('\r')
    } else if c == '\\' {
        Some('\\')
    } else if c == '"' {
        Some('"')
    } else {
        None
    }
}

/// Undo [`escape_seq`]: `None` when the text has a dangling backslash or an
/// escape code outside the accepted five.
pub open spec fn unescape_seq(s: Seq<char>) -> Option<Seq<char>>
    decreases s.len(),
{
    if s.len() == 0 {
        Some(Seq::empty())
    } else if s[0] == '\\' {
        if s.len() == 1 {
            None
        } else {
            match unescape_code(s[1]) {
                Option::None => None,
                Option::Some(c) => match unescape_seq(s.skip(2)) {
                    Option::None => None,
                    Option::Some(rest) => Some(seq![c] + rest),
                },
            }
        }
    } else {
        match unescape_seq(s.drop_first()) {
            Option::None => None,
            Option::Some(rest) => Some(seq![s[0]] + rest),
        }
    }
}

/// Unescape a quoted string literal's body.
///
/// Fails exactly when the body ends in a bare backslash or uses an escape
/// code other than `\\ \" \n \r \t`.
pub fn unescape_string(value: &str) -> (r: Result<String, String>)
    ensures
        r is Ok <==> unescape_seq(value@) is Some,
        r is Ok ==> r.unwrap()@ == unescape_seq(value@).unwrap(),
{
    let cs = chars_of(value);
    unescape_chars(&cs)
}

/// [`unescape_string`] over an already collected character vector.
pub fn unescape_chars(cs: &Vec<char>) -> (r: Result<String, String>)
    ensures
        r is Ok <==> unescape_seq(cs@) is Some,
        r is Ok ==> r.unwrap()@ == unescape_seq(cs@).unwrap(),
{
    let mut out: Vec<char> = Vec::new();
    let mut i: usize = 0;
    proof {
        assert(cs@.skip(0) =~= cs@);
        if unescape_seq(cs@) is Some {
            assert(Seq::<char>::empty() + unescape_seq(cs@).unwrap() =~= unescape_seq(
                cs@,
            ).unwrap());
        }
    }
    while i < cs.len()
        invariant
            0 <= i <= cs.len(),
            match unescape_seq(cs@.skip(i as int)) {
                Option::Some(rest) => unescape_seq(cs@) == Some(out@ + rest),
                Option::None => unescape_seq(cs@) is None,
            },
        decreases cs.len() - i,
    {
        let ghost tail = cs@.skip(i as int);
        proof {
            assert(tail[0] == cs@[i as int]);
        }
        let c = cs[i];
        if c == '\\' {
            if i + 1 >= cs.len() {
                proof {
                    assert(tail.len() == 1);
                }
                return Err(String::from_str("Invalid escape sequence: backslash at end of string"));
            }
            proof {
                assert(tail[1] == cs@[i as int + 1]);
                assert(tail.skip(2) =~= cs@.skip(i as int + 2));
            }
            let code = cs[i + 1];
            let ghost out_before = out@;
            if code == 'n' {
                out.push('\n');
            } else if code == 't' {
                out.push('\t');
            } else if code == 'r' {
                out.push('\r');
            } else if code == '\\' {
                out.push('\\');
            } else if code == '"' {
                out.push('"');
            } else {
                let mut msg = chars_of("Invalid escape sequence: \\");
                msg.push(code);
                return Err(string_from_chars(msg.as_slice()));
            }
            proof {
                let mapped = unescape_code(tail[1]).unwrap();
                assert(out@ =~= out_before + seq![mapped]);
                match unescape_seq(cs@.skip(i as int + 2)) {
                    Option::Some(r2) => {
                        assert(unescape_seq(tail) == Some(seq![mapped] + r2));
                        assert(out_before + (seq![mapped] + r2) =~= out@ + r2);
                    },
                    Option::None => {
                        assert(unescape_seq(tail) is None);
                    },
                }
            }
            i += 2;
        } else {
            proof {
                assert(tail.drop_first() =~= cs@.skip(i as int + 1));
            }
            let ghost out_before = out@;
            out.push(c);
            proof {
                assert(out@ =~= out_before + seq![c]);
                match unescape_seq(cs@.skip(i as int + 1)) {
                    Option::Some(r2) => {
                        assert(unescape_seq(tail) == Some(seq![c] + r2));
                        assert(out_before + (seq![c] + r2) =~= out@ + r2);
                    },
                    Option::None => {
                        assert(unescape_seq(tail) is None);
                    },
                }
            }
            i += 1;
        }
    }
    proof {
        assert(cs@.skip(cs@.len() as int) =~= Seq::<char>::empty());
        assert(out@ + Seq::<char>::empty() =~= out@);
    }
    Ok(string_from_chars(out.as_slice()))
}

/// Unescaping undoes escaping: the designed inverse of the literal writer.
pub proof fn lemma_unescape_escape(s: Seq<char>)
    ensures
        unescape_seq(escape_seq(s)) == Some(s),
    decreases s.len(),
{
    if s.len() == 0 {
    } else {
        let c = s[0];
        let rest = s.drop_first();
        lemma_unescape_escape(rest);
        let e = escape_seq(s);
        assert(e =~= escape_char(c) + escape_seq(rest));
        if c == '\\' || c == '"' || c == '\n' || c == '\r' || c == '\t' {
            assert(e[0] == '\\');
            assert(e.skip(2) =~= escape_seq(rest));
            assert(seq![c] + rest =~= s);
        } else {
            assert(e[0] == c);
            assert(e.drop_first() =~= escape_seq(rest));
            assert(seq![c] + rest =~= s);
        }
    }
}

/// Position of the quote closing the one at `i - 1`-ish: scanning from `i`,
/// skip backslash pairs, stop at the first bare double quote.
pub open spec fn closing_quote_from(s: Seq<char>, i: int) -> Option<int>
    decreases s.len() - i,
{
    if i >= s.len() {
        None
    } else if s[i] == '\\' && i + 1 < s.len() {
        closing_quote_from(s, i + 2)
    } else if s[i] == '"' {
        Some(i)
    } else {
        closing_quote_from(s, i + 1)
    }
}

/// Find the quote that closes the opening quote at position `start`.
pub fn find_closing_quote(content: &str, start: usize) -> (r: Option<usize>)
    requires
        start < content@.len(),
    ensures
        match r {
            Option::Some(j) => closing_quote_from(content@, start + 1) == Some(j as int),
            Option::None => closing_quote_from(content@, start + 1) is None,
        },
{
    let cs = chars_of(content);
    assert(start < cs.len());
    closing_quote_in_chars(&cs, start)
}

/// [`find_closing_quote`] over an already collected character vector.
pub fn closing_quote_in_chars(cs: &Vec<char>, start: usize) -> (r: Option<usize>)
    requires
        start < cs@.len(),
    ensures
        match r {
            Option::Some(j) => closing_quote_from(cs@, start + 1) == Some(j as int) && start < j
                < cs@.len(),
            Option::None => closing_quote_from(cs@, start + 1) is None,
        },
{
    assert(start < cs.len());
    let mut i: usize = start + 1;
    while i < cs.len()
        invariant
            start < i,
            closing_quote_from(cs@, start + 1) == closing_quote_from(cs@, i as int),
        decreases cs.len() - i,
    {
        if cs[i] == '\\' && i + 1 < cs.len() {
            i += 2;
        } else if cs[i] == '"' {
            return Some(i);
        } else {
            i += 1;
        }
    }
    None
}

/// The first occurrence of `c` in `s` at or after `i`.
pub open spec fn find_char_from(s: Seq<char>, c: char, i: int) -> Option<int>
    decreases s.len() - i,
{
    if i >= s.len() {
        None
    } else if 0 <= i && s[i] == c {
        Some(i)
    } else {
        find_char_from(s, c, i + 1)
    }
}

/// Find the first occurrence of `c` at or after `from`.
pub fn find_char(cs: &Vec<char>, c: char, from: usize) -> (r: Option<usize>)
    ensures
        match r {
            Option::Some(j) => find_char_from(cs@, c, from as int) == Some(j as int) && from <= j
                < cs@.len() && cs@[j as int] == c,
            Option::None => find_char_from(cs@, c, from as int) is None,
        },
{
    let mut i: usize = from;
    while i < cs.len()
        invariant
            from <= i,
            find_char_from(cs@, c, from as int) == find_char_from(cs@, c, i as int),
        decreases cs.len() - i,
    {
        if cs[i] == c {
            return Some(i);
        }
        i += 1;
    }
    None
}

/// The characters of `cs` from `a` (inclusive) to `b` (exclusive).
pub fn subrange_chars(cs: &Vec<char>, a: usize, b: usize) -> (r: Vec<char>)
    requires
        a <= b <= cs@.len(),
    ensures
        r@ == cs@.subrange(a as int, b as int),
{
    let mut r: Vec<char> = Vec::new();
    let mut i: usize = a;
    while i < b
        invariant
            a <= i <= b <= cs@.len(),
            r@ == cs@.subrange(a as int, i as int),
        decreases b - i,
    {
        r.push(cs[i]);
        i += 1;
        proof {
            assert(r@ =~= cs@.subrange(a as int, i as int));
        }
    }
    r
}

/// Scanning from `i` with quote state `in_quotes`, the position of the first
/// occurrence of `target` outside double quotes.
pub open spec fn find_unquoted_from(s: Seq<char>, target: char, i: int, in_quotes: bool) -> Option<
    int,
>
    decreases s.len() - i,
{
    if i >= s.len() {
        None
    } else if in_quotes && s[i] == '\\' && i + 1 < s.len() {
        find_unquoted_from(s, target, i + 2, true)
    } else if s[i] == '"' {
        find_unquoted_from(s, target, i + 1, !in_quotes)
    } else if s[i] == target && !in_quotes {
        Some(i)
    } else {
        find_unquoted_from(s, target, i + 1, in_quotes)
    }
}

/// Find the first `target` at or after `start` that is not inside a quoted
/// region.
pub fn find_unquoted_char(content: &str, target: char, start: usize) -> (r: Option<usize>)
    ensures
        match r {
            Option::Some(j) => find_unquoted_from(content@, target, start as int, false) == Some(
                j as int,
            ),
            Option::None => find_unquoted_from(content@, target, start as int, false) is None,
        },
{
    let cs = chars_of(content);
    find_unquoted_in_chars(&cs, target, start)
}

/// [`find_unquoted_char`] over an already collected character vector.
pub fn find_unquoted_in_chars(cs: &Vec<char>, target: char, start: usize) -> (r: Option<usize>)
    ensures
        match r {
            Option::Some(j) => find_unquoted_from(cs@, target, start as int, false) == Some(
                j as int,
            ),
            Option::None => find_unquoted_from(cs@, target, start as int, false) is None,
        },
{
    let mut i: usize = start;
    let mut in_quotes: bool = false;
    while i < cs.len()
        invariant
            find_unquoted_from(cs@, target, start as int, false) == find_unquoted_from(
                cs@,
                target,
                i as int,
                in_quotes,
            ),
        decreases cs.len() - i,
    {
        let c = cs[i];
        if in_quotes && c == '\\' && i + 1 < cs.len() {
            i += 2;
        } else if c == '"' {
            in_quotes = !in_quotes;
            i += 1;
        } else if c == target && !in_quotes {
            return Some(i);
        } else {
            i += 1;
        }
    }
    None
}

/// The decimal digit character for `d`.
pub open spec fn dec_digit(d: int) -> char {
    if d == 0 {
        '0'
    } else if d == 1 {
        '1'
    } else if d == 2 {
        '2'
    } else if d == 3 {
        '3'
    } else if d == 4 {
        '4'
    } else if d == 5 {
        '5'
    } else if d == 6 {
        '6'
    } else if d == 7 {
        '7'
    } else if d == 8 {
        '8'
    } else {
        '9'
    }
}

/// The decimal representation of `n`, without sign or leading zeros.
pub open spec fn dec_rep(n: nat) -> Seq<char>
    decreases n,
{
    if n < 10 {
        seq![dec_digit(n as int)]
    } else {
        dec_rep(n / 10) + seq![dec_digit((n % 10) as int)]
    }
}

/// Append the decimal representation of `n` to `out`.
pub fn push_decimal(n: usize, out: &mut Vec<char>)
    ensures
        final(out)@ == old(out)@ + dec_rep(n as nat),
    decreases n,
{
    if n < 10 {
        out.push(digit_char(n % 10));
        proof {
            assert(final(out)@ =~= old(out)@ + dec_rep(n as nat));
        }
    } else {
        push_decimal(n / 10, out);
        out.push(digit_char(n % 10));
        proof {
            assert(final(out)@ =~= old(out)@ + dec_rep(n as nat));
        }
    }
}

fn digit_char(d: usize) -> (c: char)
    requires
        d < 10,
    ensures
        c == dec_digit(d as int),
{
    if d == 0 {
        '0'
    } else if d == 1 {
        '1'
    } else if d == 2 {
        '2'
    } else if d == 3 {
        '3'
    } else if d == 4 {
        '4'
    } else if d == 5 {
        '5'
    } else if d == 6 {
        '6'
    } else if d == 7 {
        '7'
    } else if d == 8 {
        '8'
    } else {
        '9'
    }
}

/// The decimal representation of `n` as a string.
pub fn decimal_string(n: usize) -> (r: String)
    ensures
        r@ == dec_rep(n as nat),
{
    let mut out: Vec<char> = Vec::new();
    push_decimal(n, &mut out);
    string_from_chars(out.as_slice())
}

/// Is `c` an ASCII decimal digit?
pub open spec fn is_dec_digit(c: char) -> bool {
    '0' <= c && c <= '9'
}

/// The numeric value of digit character `c`.
pub open spec fn digit_val(c: char) -> int {
    c as int - '0' as int
}

/// The value of a digit string, read most significant first.
pub open spec fn digits_val(s: Seq<char>) -> int
    decreases s.len(),
{
    if s.len() == 0 {
        0
    } else {
        digits_val(s.drop_last()) * 10 + digit_val(s.last())
    }
}

/// Does `s` consist only of decimal digits?
pub open spec fn all_dec_digits(s: Seq<char>) -> bool {
    forall|k: int| 0 <= k < s.len() ==> is_dec_digit(s[k])
}

/// `s` with one optional leading `+` sign removed.
pub open spec fn plus_stripped(s: Seq<char>) -> Seq<char> {
    if s.len() > 0 && s[0] == '+' {
        s.drop_first()
    } else {
        s
    }
}

/// Parse an unsigned decimal integer as `usize::from_str` does: optional
/// leading `+`, then one or more digits; fails on anything else and on
/// overflow.
pub open spec fn parses_as_usize(s: Seq<char>, n: int) -> bool {
    &&& plus_stripped(s).len() > 0
    &&& all_dec_digits(plus_stripped(s))
    &&& digits_val(plus_stripped(s)) == n
    &&& n <= usize::MAX
}

/// Whether some usize value reads from `s`.
pub open spec fn usize_parse_ok(s: Seq<char>) -> bool {
    &&& plus_stripped(s).len() > 0
    &&& all_dec_digits(plus_stripped(s))
    &&& digits_val(plus_stripped(s)) <= usize::MAX
}

/// Read an unsigned decimal integer from a character vector.
pub fn parse_usize_chars(cs: &Vec<char>) -> (r: Option<usize>)
    ensures
        match r {
            Option::Some(n) => parses_as_usize(cs@, n as int),
            Option::None => !usize_parse_ok(cs@),
        },
{
    let ghost t = plus_stripped(cs@);
    let start: usize = if cs.len() > 0 && cs[0] == '+' {
        1
    } else {
        0
    };
    proof {
        assert(t =~= cs@.skip(start as int));
    }
    if cs.len() == start {
        return None;
    }
    let mut acc: usize = 0;
    let mut i: usize = start;
    while i < cs.len()
        invariant
            start <= i <= cs.len(),
            t == plus_stripped(cs@),
            t =~= cs@.skip(start as int),
            all_dec_digits(t.take(i - start)),
            acc as int == digits_val(t.take(i - start)),
        decreases cs.len() - i,
    {
        let c = cs[i];
        if !('0' <= c && c <= '9') {
            proof {
                assert(t[i - start] == c);
                assert(!is_dec_digit(t[i - start]));
                if usize_parse_ok(cs@) {
                    assert(all_dec_digits(t));
                    assert(is_dec_digit(t[i - start]));
                }
            }
            return None;
        }
        let d: usize = (c as u32 as usize) - 48;
        proof {
            assert(d == digit_val(c)) by {
                assert('0' as int == 48);
            }
        }
        if acc > usize::MAX / 10 || (acc == usize::MAX / 10 && d > usize::MAX % 10) {
            proof {
                assert(all_dec_digits(t.take(i - start + 1))) by {
                    assert(t[i - start] == c);
                    assert(forall|k: int|
                        0 <= k < i - start + 1 ==> #[trigger] t.take(i - start + 1)[k] == t.take(
                            i - start,
                        ).push(c)[k]);
                    assert(t.take(i - start + 1) =~= t.take(i - start).push(c));
                }
                assert(t.take(i - start + 1).drop_last() =~= t.take(i - start));
                assert(t.take(i - start + 1).last() == c);
                assert(digits_val(t.take(i + 1 - start)) > usize::MAX);
                if usize_parse_ok(cs@) {
                    assert(all_dec_digits(t));
                    lemma_digits_val_grows(t, t.len() as int);
                    assert(t.take(t.len() as int) =~= t);
                    assert(digits_val(t) > usize::MAX);
                }
            }
            return None;
        }
        acc = acc * 10 + d;
        i += 1;
        proof {
            assert(t.take(i - start).drop_last() =~= t.take(i - 1 - start));
            assert(t.take(i - start).last() == c);
        }
    }
    proof {
        assert(t.take(cs@.len() - start) =~= t);
    }
    Some(acc)
}

/// A longer digit prefix never reads a smaller value.
proof fn lemma_digits_val_grows(t: Seq<char>, upto: int)
    requires
        0 < upto <= t.len(),
        all_dec_digits(t.take(upto)),
    ensures
        forall|j: int|
            0 <= j <= upto ==> #[trigger] digits_val(t.take(j)) <= digits_val(t.take(upto)),
        digits_val(t.take(upto)) >= 0,
    decreases upto,
{
    if upto == 1 {
        assert(t.take(0) =~= Seq::<char>::empty());
        assert(t.take(1).drop_last() =~= t.take(0));
        assert(digits_val(t.take(1)) == digit_val(t[0]));
        assert(is_dec_digit(t[0]));
    } else {
        assert(t.take(upto - 1) =~= t.take(upto).take(upto - 1));
        lemma_digits_val_grows(t, upto - 1);
        assert(t.take(upto).drop_last() =~= t.take(upto - 1));
        assert(is_dec_digit(t[upto - 1]));
        assert(digits_val(t.take(upto)) == digits_val(t.take(upto - 1)) * 10 + digit_val(
            t[upto - 1],
        ));
    }
}

} // verus!

