//! Textual encoding of primitives and header lines: when a string or key
//! may be written bare, how quoting and escaping work, how joined primitive
//! rows are built, and the exact text of an array header.

use vstd::prelude::*;

verus! {

use crate::value::{JsonPrimitive, StringOrNumberOrBoolOrNull, PrimModel, prim_model};
use crate::keys::{safe_unquoted, is_unquoted_key, chars_safe_unquoted, chars_valid_unquoted_key};
use crate::literals::{true_lit, false_lit, null_lit};
use crate::text::{escape_seq, escape_string, chars_of, string_from_chars, dec_rep, push_decimal};

/// The text of a string value: bare when safe, quoted and escaped otherwise.
pub open spec fn encode_string_spec(s: Seq<char>, delimiter: char) -> Seq<char> {
    if safe_unquoted(s, delimiter) {
        s
    } else {
        seq!['"'] + escape_seq(s) + seq!['"']
    }
}

/// The text of a key: bare when identifier-like, quoted and escaped
/// otherwise.
pub open spec fn encode_key_spec(s: Seq<char>) -> Seq<char> {
    if is_unquoted_key(s) {
        s
    } else {
        seq!['"'] + escape_seq(s) + seq!['"']
    }
}

/// The text of one primitive.
pub open spec fn encode_prim_spec(p: PrimModel, delimiter: char) -> Seq<char> {
    match p {
        PrimModel::Null => null_lit(),
        PrimModel::Bool(b) => if b {
            true_lit()
        } else {
            false_lit()
        },
        PrimModel::Num(t) => t,
        PrimModel::Str(s) => encode_string_spec(s, delimiter),
    }
}

/// The delimiter-joined text of a primitive row.
pub open spec fn join_prims_spec(ps: Seq<PrimModel>, delimiter: char) -> Seq<char>
    decreases ps.len(),
{
    if ps.len() == 0 {
        Seq::empty()
    } else if ps.len() == 1 {
        encode_prim_spec(ps[0], delimiter)
    } else {
        join_prims_spec(ps.drop_last(), delimiter) + seq![delimiter] + encode_prim_spec(
            ps.last(),
            delimiter,
        )
    }
}

/// Encode a string value, quoting when it is not safe bare.
pub fn encode_string_literal(value: &str, delimiter: char) -> (r: String)
    ensures
        r@ == encode_string_spec(value@, delimiter),
{
    let cs = chars_of(value);
    if chars_safe_unquoted(&cs, delimiter) {
        return string_from_chars(cs.as_slice());
    }
    let escaped = escape_string(value);
    let mut out = String::from_str("\"");
    out.append(escaped.as_str());
    out.append("\"");
    proof {
        reveal_strlit("\"");
        assert(out@ =~= seq!['"'] + escape_seq(value@) + seq!['"']);
    }
    out
}

/// Encode a key, quoting when it is not identifier-like.
pub fn encode_key(key: &str) -> (r: String)
    ensures
        r@ == encode_key_spec(key@),
{
    let cs = chars_of(key);
    if chars_valid_unquoted_key(&cs) {
        return string_from_chars(cs.as_slice());
    }
    let escaped = escape_string(key);
    let mut out = String::from_str("\"");
    out.append(escaped.as_str());
    out.append("\"");
    proof {
        reveal_strlit("\"");
        assert(out@ =~= seq!['"'] + escape_seq(key@) + seq!['"']);
    }
    out
}

/// Encode one primitive as its token text.
pub fn encode_primitive(value: &JsonPrimitive, delimiter: char) -> (r: String)
    ensures
        r@ == encode_prim_spec(prim_model(*value), delimiter),
{
    match value {
        StringOrNumberOrBoolOrNull::Null => {
            let s = String::from_str("null");
            proof {
                reveal_strlit("null");
                assert(s@ =~= null_lit());
            }
            s
        },
        StringOrNumberOrBoolOrNull::Bool(b) => {
            if *b {
                let s = String::from_str("true");
                proof {
                    reveal_strlit("true");
                    assert(s@ =~= true_lit());
                }
                s
            } else {
                let s = String::from_str("false");
                proof {
                    reveal_strlit("false");
                    assert(s@ =~= false_lit());
                }
                s
            }
        },
        StringOrNumberOrBoolOrNull::Number(t) => t.clone(),
        StringOrNumberOrBoolOrNull::String(s) => encode_string_literal(s.as_str(), delimiter),
    }
}

/// Joining one more primitive appends a delimiter and its text.
proof fn lemma_join_snoc(ps: Seq<PrimModel>, p: PrimModel, delimiter: char)
    ensures
        join_prims_spec(ps.push(p), delimiter) == if ps.len() == 0 {
            encode_prim_spec(p, delimiter)
        } else {
            join_prims_spec(ps, delimiter) + seq![delimiter] + encode_prim_spec(p, delimiter)
        },
{
    assert(ps.push(p).last() == p);
    assert(ps.push(p).drop_last() =~= ps);
    if ps.len() == 0 {
        assert(ps.push(p).len() == 1);
        assert(ps.push(p)[0] == p);
    }
}

/// Join a row of primitives with the delimiter.
pub fn encode_and_join_primitives(values: &Vec<JsonPrimitive>, delimiter: char) -> (r: String)
    ensures
        r@ == join_prims_spec(
            values@.map_values(|p: JsonPrimitive| prim_model(p)),
            delimiter,
        ),
{
    let ghost models = values@.map_values(|p: JsonPrimitive| prim_model(p));
    let mut out: Vec<char> = Vec::new();
    let mut i: usize = 0;
    proof {
        assert(models.take(0) =~= Seq::<PrimModel>::empty());
        assert(out@ =~= Seq::<char>::empty());
    }
    while i < values.len()
        invariant
            0 <= i <= values@.len(),
            models == values@.map_values(|p: JsonPrimitive| prim_model(p)),
            out@ == join_prims_spec(models.take(i as int), delimiter),
        decreases values.len() - i,
    {
        let ghost before = out@;
        if i > 0 {
            out.push(delimiter);
        }
        let piece = encode_primitive(&values[i], delimiter);
        let piece_chars = chars_of(piece.as_str());
        let mut j: usize = 0;
        while j < piece_chars.len()
            invariant
                0 <= j <= piece_chars@.len(),
                piece_chars@ == encode_prim_spec(models[i as int], delimiter),
                out@ == (if i == 0 {
                    before
                } else {
                    before + seq![delimiter]
                }) + piece_chars@.take(j as int),
                i < values@.len(),
                models == values@.map_values(|p: JsonPrimitive| prim_model(p)),
                before == join_prims_spec(models.take(i as int), delimiter),
            decreases piece_chars.len() - j,
        {
            out.push(piece_chars[j]);
            j += 1;
            proof {
                assert(piece_chars@.take(j as int) =~= piece_chars@.take(j - 1).push(
                    piece_chars@[j - 1],
                ));
                assert(out@ =~= (if i == 0 {
                    before
                } else {
                    before + seq![delimiter]
                }) + piece_chars@.take(j as int));
            }
        }
        proof {
            assert(piece_chars@.take(piece_chars@.len() as int) =~= piece_chars@);
            assert(models.take(i + 1) =~= models.take(i as int).push(models[i as int]));
            lemma_join_snoc(models.take(i as int), models[i as int], delimiter);
            if i == 0 {
                assert(out@ =~= encode_prim_spec(models[0], delimiter));
            } else {
                assert(out@ =~= join_prims_spec(models.take(i as int), delimiter)
                    + seq![delimiter] + encode_prim_spec(models[i as int], delimiter));
            }
        }
        i += 1;
    }
    proof {
        assert(models.take(models.len() as int) =~= models);
    }
    string_from_chars(out.as_slice())
}

/// The delimiter-joined text of a field-name list.
pub open spec fn join_keys_spec(fs: Seq<Seq<char>>, delimiter: char) -> Seq<char>
    decreases fs.len(),
{
    if fs.len() == 0 {
        Seq::empty()
    } else if fs.len() == 1 {
        encode_key_spec(fs[0])
    } else {
        join_keys_spec(fs.drop_last(), delimiter) + seq![delimiter] + encode_key_spec(fs.last())
    }
}

proof fn lemma_join_keys_snoc(fs: Seq<Seq<char>>, f: Seq<char>, delimiter: char)
    ensures
        join_keys_spec(fs.push(f), delimiter) == if fs.len() == 0 {
            encode_key_spec(f)
        } else {
            join_keys_spec(fs, delimiter) + seq![delimiter] + encode_key_spec(f)
        },
{
    assert(fs.push(f).last() == f);
    assert(fs.push(f).drop_last() =~= fs);
    if fs.len() == 0 {
        assert(fs.push(f).len() == 1);
        assert(fs.push(f)[0] == f);
    }
}

/// The exact text of an array header line:
/// `key?[LENGTH<delim>]{fields}?:`. The delimiter is written inside the
/// brackets only when it is not the comma default.
pub open spec fn header_line_spec(
    length: int,
    key: Option<Seq<char>>,
    fields: Option<Seq<Seq<char>>>,
    delimiter: char,
) -> Seq<char> {
    let k = match key {
        Option::Some(s) => encode_key_spec(s),
        Option::None => Seq::empty(),
    };
    let dl = if delimiter == ',' {
        Seq::<char>::empty()
    } else {
        seq![delimiter]
    };
    let br = seq!['['] + dec_rep(length as nat) + dl + seq![']'];
    let f = match fields {
        Option::Some(fs) => seq!['{'] + join_keys_spec(fs, delimiter) + seq!['}'],
        Option::None => Seq::<char>::empty(),
    };
    k + br + f + seq![':']
}

/// Write an array header line.
#[verifier::rlimit(50)]
pub fn format_header(
    length: usize,
    key: Option<&str>,
    fields: Option<&Vec<String>>,
    delimiter: char,
) -> (r: String)
    ensures
        r@ == header_line_spec(
            length as int,
            match key {
                Option::Some(k) => Some(k@),
                Option::None => None,
            },
            match fields {
                Option::Some(fs) => Some(fs@.map_values(|f: String| f@)),
                Option::None => None,
            },
            delimiter,
        ),
{
    let mut out: Vec<char> = Vec::new();
    match key {
        Option::Some(k) => {
            let ek = encode_key(k);
            let ek_chars = chars_of(ek.as_str());
            let mut j: usize = 0;
            while j < ek_chars.len()
                invariant
                    0 <= j <= ek_chars@.len(),
                    out@ == ek_chars@.take(j as int),
                decreases ek_chars.len() - j,
            {
                out.push(ek_chars[j]);
                j += 1;
                proof {
                    assert(out@ =~= ek_chars@.take(j as int));
                }
            }
            proof {
                assert(ek_chars@.take(ek_chars@.len() as int) =~= ek_chars@);
            }
        },
        Option::None => {},
    }
    let ghost key_part = out@;

    out.push('[');
    push_decimal(length, &mut out);
    if delimiter != ',' {
        out.push(delimiter);
    }
    out.push(']');
    let ghost bracket_done = out@;
    proof {
        let dl: Seq<char> = if delimiter == ',' {
            Seq::<char>::empty()
        } else {
            seq![delimiter]
        };
        assert(bracket_done =~= key_part + (seq!['['] + dec_rep(length as nat) + dl + seq![']']));
    }

    match fields {
        Option::Some(fs) => {
            out.push('{');
            let ghost fs_models = fs@.map_values(|f: String| f@);
            let mut i: usize = 0;
            let ghost brace_start = out@;
            proof {
                assert(fs_models.take(0) =~= Seq::<Seq<char>>::empty());
                assert(out@ =~= brace_start + join_keys_spec(fs_models.take(0), delimiter));
            }
            while i < fs.len()
                invariant
                    0 <= i <= fs@.len(),
                    fs_models == fs@.map_values(|f: String| f@),
                    out@ == brace_start + join_keys_spec(fs_models.take(i as int), delimiter),
                decreases fs.len() - i,
            {
                let ghost before = out@;
                if i > 0 {
                    out.push(delimiter);
                }
                let ek = encode_key(fs[i].as_str());
                let ek_chars = chars_of(ek.as_str());
                let mut j: usize = 0;
                while j < ek_chars.len()
                    invariant
                        0 <= j <= ek_chars@.len(),
                        ek_chars@ == encode_key_spec(fs_models[i as int]),
                        out@ == (if i == 0 {
                            before
                        } else {
                            before + seq![delimiter]
                        }) + ek_chars@.take(j as int),
                        i < fs@.len(),
                        fs_models == fs@.map_values(|f: String| f@),
                        before == brace_start + join_keys_spec(
                            fs_models.take(i as int),
                            delimiter,
                        ),
                    decreases ek_chars.len() - j,
                {
                    out.push(ek_chars[j]);
                    j += 1;
                    proof {
                        assert(out@ =~= (if i == 0 {
                            before
                        } else {
                            before + seq![delimiter]
                        }) + ek_chars@.take(j as int));
                    }
                }
                proof {
                    assert(ek_chars@.take(ek_chars@.len() as int) =~= ek_chars@);
                    assert(fs_models.take(i + 1) =~= fs_models.take(i as int).push(
                        fs_models[i as int],
                    ));
                    lemma_join_keys_snoc(fs_models.take(i as int), fs_models[i as int], delimiter);
                    if i == 0 {
                        assert(out@ =~= brace_start + encode_key_spec(fs_models[0]));
                    } else {
                        assert(out@ =~= brace_start + (join_keys_spec(
                            fs_models.take(i as int),
                            delimiter,
                        ) + seq![delimiter] + encode_key_spec(fs_models[i as int])));
                    }
                }
                i += 1;
            }
            out.push('}');
            proof {
                assert(fs_models.take(fs_models.len() as int) =~= fs_models);
                assert(out@ =~= bracket_done + (seq!['{'] + join_keys_spec(fs_models, delimiter)
                    + seq!['}']));
            }
        },
        Option::None => {},
    }

    out.push(':');
    proof {
        let dl: Seq<char> = if delimiter == ',' {
            Seq::<char>::empty()
        } else {
            seq![delimiter]
        };
        let br = seq!['['] + dec_rep(length as nat) + dl + seq![']'];
        match fields {
            Option::Some(fs) => {
                assert(out@ =~= key_part + br + (seq!['{'] + join_keys_spec(
                    fs@.map_values(|f: String| f@),
                    delimiter,
                ) + seq!['}']) + seq![':']);
            },
            Option::None => {
                assert(out@ =~= key_part + br + Seq::<char>::empty() + seq![':']);
            },
        }
    }
    string_from_chars(out.as_slice())
}

} // verus!
