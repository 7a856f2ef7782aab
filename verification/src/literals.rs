//! Classification of bare tokens: the `true` / `false` / `null` literals and
//! the JSON-compatible numeric grammar, plus the looser "numeric-like" test
//! that decides when a string value must be quoted.

use vstd::prelude::*;

verus! {

use crate::text::{
    is_dec_digit,
    trim_seq,
    trim_chars,
    chars_of,
};

pub open spec fn true_lit() -> Seq<char> {
    seq!['t', 'r', 'u', 'e']
}

pub open spec fn false_lit() -> Seq<char> {
    seq!['f', 'a', 'l', 's', 'e']
}

pub open spec fn null_lit() -> Seq<char> {
    seq!['n', 'u', 'l', 'l']
}

/// Is `s` exactly one of the three keyword literals?
pub open spec fn is_bool_or_null_lit(s: Seq<char>) -> bool {
    s == true_lit() || s == false_lit() || s == null_lit()
}

/// Does the character vector spell `true`?
pub fn chars_are_true(cs: &Vec<char>) -> (r: bool)
    ensures
        r == (cs@ == true_lit()),
{
    let r = cs.len() == 4 && cs[0] == 't' && cs[1] == 'r' && cs[2] == 'u' && cs[3] == 'e';
    proof {
        if r {
            assert(cs@ =~= true_lit());
        }
    }
    r
}

/// Does the character vector spell `false`?
pub fn chars_are_false(cs: &Vec<char>) -> (r: bool)
    ensures
        r == (cs@ == false_lit()),
{
    let r = cs.len() == 5 && cs[0] == 'f' && cs[1] == 'a' && cs[2] == 'l' && cs[3] == 's' && cs[4]
        == 'e';
    proof {
        if r {
            assert(cs@ =~= false_lit());
        }
    }
    r
}

/// Does the character vector spell `null`?
pub fn chars_are_null(cs: &Vec<char>) -> (r: bool)
    ensures
        r == (cs@ == null_lit()),
{
    let r = cs.len() == 4 && cs[0] == 'n' && cs[1] == 'u' && cs[2] == 'l' && cs[3] == 'l';
    proof {
        if r {
            assert(cs@ =~= null_lit());
        }
    }
    r
}

/// [`is_bool_or_null_lit`] over a character vector.
pub fn chars_bool_or_null(cs: &Vec<char>) -> (r: bool)
    ensures
        r == is_bool_or_null_lit(cs@),
{
    chars_are_true(cs) || chars_are_false(cs) || chars_are_null(cs)
}

/// Is `value` exactly `true`, `false` or `null`?
pub fn is_boolean_or_null_literal(value: &str) -> (r: bool)
    ensures
        r == is_bool_or_null_lit(value@),
{
    let cs = chars_of(value);
    chars_bool_or_null(&cs)
}

/// First index at or after `i` holding no decimal digit.
pub open spec fn digit_run_end(s: Seq<char>, i: int) -> int
    decreases s.len() - i,
{
    if 0 <= i < s.len() && is_dec_digit(s[i]) {
        digit_run_end(s, i + 1)
    } else {
        i
    }
}

pub proof fn lemma_digit_run_end_agrees(s: Seq<char>, from: int, e: int)
    requires
        0 <= from <= e <= s.len(),
        forall|k: int| from <= k < e ==> is_dec_digit(s[k]),
        e < s.len() ==> !is_dec_digit(s[e]),
    ensures
        digit_run_end(s, from) == e,
    decreases e - from,
{
    if from < e {
        lemma_digit_run_end_agrees(s, from + 1, e);
    }
}

/// Scan the digit run starting at `from`; returns its end.
pub fn scan_digits(cs: &Vec<char>, from: usize) -> (e: usize)
    requires
        from <= cs@.len(),
    ensures
        e == digit_run_end(cs@, from as int),
        from <= e <= cs@.len(),
        forall|k: int| from <= k < e ==> is_dec_digit(cs@[k]),
        e < cs@.len() ==> !is_dec_digit(cs@[e as int]),
{
    let mut i: usize = from;
    while i < cs.len() && '0' <= cs[i] && cs[i] <= '9'
        invariant
            from <= i <= cs.len(),
            forall|k: int| from <= k < i ==> is_dec_digit(cs@[k]),
        decreases cs.len() - i,
    {
        i += 1;
    }
    proof {
        lemma_digit_run_end_agrees(cs@, from as int, i as int);
    }
    i
}

/// The fraction-then-exponent tail of the numeric grammar, scanned from `i`:
/// an optional `.` followed by one or more digits, then an optional `e`/`E`
/// with optional sign and one or more digits, and nothing after.
pub open spec fn numeric_tail_ok(t: Seq<char>, i: int) -> bool {
    let after_frac = if i < t.len() && t[i] == '.' {
        let f_end = digit_run_end(t, i + 1);
        if f_end == i + 1 {
            -1
        } else {
            f_end
        }
    } else {
        i
    };
    if after_frac < 0 {
        false
    } else {
        let j = after_frac;
        let after_exp = if j < t.len() && (t[j] == 'e' || t[j] == 'E') {
            let k = if j + 1 < t.len() && (t[j + 1] == '+' || t[j + 1] == '-') {
                j + 2
            } else {
                j + 1
            };
            let e_end = digit_run_end(t, k);
            if e_end == k {
                -1
            } else {
                e_end
            }
        } else {
            j
        };
        after_exp == t.len()
    }
}

/// The loose numeric test the encoder uses to decide quoting, over a trimmed
/// token: optional minus, one or more digits; a token whose digit run starts
/// with `0` and is longer than one digit counts as numeric right away; else
/// the fraction/exponent tail must complete the token.
pub open spec fn numeric_like_core(t: Seq<char>) -> bool {
    if t.len() == 0 {
        false
    } else {
        let ds = if t[0] == '-' {
            1int
        } else {
            0int
        };
        if ds >= t.len() {
            false
        } else {
            let d_end = digit_run_end(t, ds);
            if d_end == ds {
                false
            } else if d_end - ds > 1 && t[ds] == '0' {
                true
            } else {
                numeric_tail_ok(t, d_end)
            }
        }
    }
}

/// [`numeric_like_core`] of the trimmed input.
pub open spec fn is_numeric_like_seq(s: Seq<char>) -> bool {
    numeric_like_core(trim_seq(s))
}

/// The strict JSON numeric grammar over a trimmed token: optional minus, an
/// integer part that is `0` or starts with a nonzero digit, then the
/// fraction/exponent tail.
pub open spec fn json_number_core(t: Seq<char>) -> bool {
    if t.len() == 0 {
        false
    } else {
        let ds = if t[0] == '-' {
            1int
        } else {
            0int
        };
        if ds >= t.len() {
            false
        } else if t[ds] == '0' {
            if ds + 1 < t.len() && is_dec_digit(t[ds + 1]) {
                false
            } else {
                numeric_tail_ok(t, ds + 1)
            }
        } else if is_dec_digit(t[ds]) {
            numeric_tail_ok(t, digit_run_end(t, ds))
        } else {
            false
        }
    }
}

/// [`json_number_core`] of the trimmed input.
pub open spec fn is_json_number_seq(s: Seq<char>) -> bool {
    json_number_core(trim_seq(s))
}

/// Is `value`, trimmed, a number the decoder would store: in the strict
/// JSON numeric grammar and within the finite double range?
pub fn is_numeric_literal(value: &str) -> (r: bool)
    ensures
        r == (json_number_core(trim_seq(value@)) && crate::value::number_norm(
            trim_seq(value@),
        ) is Some),
{
    let cs = chars_of(value);
    let t = trim_chars(&cs);
    if !chars_json_number_trimmed(&t) {
        return false;
    }
    let t_string = crate::text::string_from_chars(t.as_slice());
    match crate::value::normalize_number_token(t_string.as_str()) {
        Option::Some(_) => true,
        Option::None => false,
    }
}

/// Scan the fraction/exponent tail from `i`; mirrors [`numeric_tail_ok`].
fn scan_numeric_tail(cs: &Vec<char>, i: usize) -> (r: bool)
    requires
        i <= cs@.len(),
    ensures
        r == numeric_tail_ok(cs@, i as int),
{
    let mut pos: usize = i;
    if pos < cs.len() && cs[pos] == '.' {
        let f_end = scan_digits(cs, pos + 1);
        if f_end == pos + 1 {
            return false;
        }
        pos = f_end;
    }
    if pos < cs.len() && (cs[pos] == 'e' || cs[pos] == 'E') {
        let k: usize = if pos + 1 < cs.len() && (cs[pos + 1] == '+' || cs[pos + 1] == '-') {
            pos + 2
        } else {
            pos + 1
        };
        let e_end = scan_digits(cs, k);
        if e_end == k {
            return false;
        }
        pos = e_end;
    }
    pos == cs.len()
}

/// [`numeric_like_core`] over an already trimmed character vector.
pub fn chars_numeric_like_trimmed(t: &Vec<char>) -> (r: bool)
    ensures
        r == numeric_like_core(t@),
{
    if t.len() == 0 {
        return false;
    }
    let ds: usize = if t[0] == '-' {
        1
    } else {
        0
    };
    if ds >= t.len() {
        return false;
    }
    let d_end = scan_digits(t, ds);
    if d_end == ds {
        return false;
    }
    if d_end - ds > 1 && t[ds] == '0' {
        return true;
    }
    scan_numeric_tail(t, d_end)
}

/// The loose numeric test, on the trimmed input, as the encoder applies it.
pub fn is_numeric_like(value: &str) -> (r: bool)
    ensures
        r == is_numeric_like_seq(value@),
{
    let cs = chars_of(value);
    let t = trim_chars(&cs);
    chars_numeric_like_trimmed(&t)
}

/// [`json_number_core`] over an already trimmed character vector.
pub fn chars_json_number_trimmed(t: &Vec<char>) -> (r: bool)
    ensures
        r == json_number_core(t@),
{
    if t.len() == 0 {
        return false;
    }
    let ds: usize = if t[0] == '-' {
        1
    } else {
        0
    };
    if ds >= t.len() {
        return false;
    }
    if t[ds] == '0' {
        if ds + 1 < t.len() && '0' <= t[ds + 1] && t[ds + 1] <= '9' {
            return false;
        }
        return scan_numeric_tail(t, ds + 1);
    }
    if '0' <= t[ds] && t[ds] <= '9' {
        let d_end = scan_digits(t, ds);
        return scan_numeric_tail(t, d_end);
    }
    false
}

} // verus!
