//! Laws the library states of itself and proves once, for every input: the
//! escape/unescape inverse, and the round trip of primitives through the
//! tokenizer — every canonical primitive written by the encoder reads back
//! as exactly itself.

use vstd::prelude::*;

verus! {

use crate::text::{is_ws_char, trim_seq, escape_seq, escape_char, lemma_trim_of_unpadded,
    lemma_unescape_escape, closing_quote_from, is_dec_digit};
use crate::literals::{true_lit, false_lit, null_lit, json_number_core, numeric_like_core,
    numeric_tail_ok, digit_run_end, lemma_digit_run_end_agrees};
use crate::keys::{safe_unquoted, is_unquoted_key};
use crate::value::{PrimModel, ValueModel, prim_normal, lemma_canon_number_fixed,
    lemma_canon_number_grammar};
use crate::parser::{primitive_token_spec, string_literal_spec};
use crate::primitives::encode_prim_spec;
use crate::events::{EventModel, NodeModel, CtxModel, BuildStateModel, build_spec, run_events,
    init_build_state, apply_event_model, attach_model, lemma_run_concat, node_strip,
    node_strip_arr, node_strip_obj};
use crate::api::{events_of_value, events_of_items, events_of_entries};
use crate::folding::chain_collect;
use crate::expand::{insert_path_model, entry_index_of, merge_one_model};

/// The bounds of a digit run: digits inside, a non-digit (or the end) after.
proof fn lemma_digit_run_bounds(s: Seq<char>, from: int)
    requires
        0 <= from <= s.len(),
    ensures
        from <= digit_run_end(s, from) <= s.len(),
        forall|k: int| from <= k < digit_run_end(s, from) ==> is_dec_digit(s[k]),
        digit_run_end(s, from) < s.len() ==> !is_dec_digit(s[digit_run_end(s, from)]),
    decreases s.len() - from,
{
    if from < s.len() && is_dec_digit(s[from]) {
        lemma_digit_run_bounds(s, from + 1);
    }
}

/// A token whose numeric tail completes it ends in a digit.
proof fn lemma_tail_last_digit(t: Seq<char>, i: int)
    requires
        0 < i <= t.len(),
        is_dec_digit(t[i - 1]),
        numeric_tail_ok(t, i),
    ensures
        is_dec_digit(t.last()),
{
    if i < t.len() && t[i] == '.' {
        lemma_digit_run_bounds(t, i + 1);
        let f_end = digit_run_end(t, i + 1);
        if f_end < t.len() && (t[f_end] == 'e' || t[f_end] == 'E') {
            let k = if f_end + 1 < t.len() && (t[f_end + 1] == '+' || t[f_end + 1] == '-') {
                f_end + 2
            } else {
                f_end + 1
            };
            lemma_digit_run_bounds(t, k);
        }
    } else if i < t.len() && (t[i] == 'e' || t[i] == 'E') {
        let k = if i + 1 < t.len() && (t[i + 1] == '+' || t[i + 1] == '-') {
            i + 2
        } else {
            i + 1
        };
        lemma_digit_run_bounds(t, k);
    }
}

/// The shape of a grammar-valid numeric token: it opens with a minus or a
/// digit and closes with a digit.
proof fn lemma_number_shape(t: Seq<char>)
    requires
        json_number_core(t),
    ensures
        t.len() > 0,
        t[0] == '-' || is_dec_digit(t[0]),
        is_dec_digit(t.last()),
{
    let ds: int = if t[0] == '-' {
        1
    } else {
        0
    };
    if t[ds] == '0' {
        lemma_tail_last_digit(t, ds + 1);
    } else {
        lemma_digit_run_bounds(t, ds);
        let d_end = digit_run_end(t, ds);
        lemma_tail_last_digit(t, d_end);
    }
}

/// Every token of the strict numeric grammar also counts as numeric-like,
/// so the encoder always quotes a string that could read as a number.
proof fn lemma_number_is_numeric_like(t: Seq<char>)
    requires
        json_number_core(t),
    ensures
        numeric_like_core(t),
{
    let ds: int = if t[0] == '-' {
        1
    } else {
        0
    };
    if t[ds] == '0' {
        // the grammar allows no digit after a leading zero, so the digit run
        // is exactly that zero
        assert(is_dec_digit(t[ds]));
        if ds + 1 < t.len() {
            lemma_digit_run_end_agrees(t, ds, ds + 1);
        } else {
            lemma_digit_run_end_agrees(t, ds, ds + 1);
        }
        assert(digit_run_end(t, ds) == ds + 1);
    } else {
        lemma_digit_run_bounds(t, ds);
        let d_end = digit_run_end(t, ds);
        assert(d_end > ds);
    }
}

/// Scanning for the closing quote over an escaped body never stops inside
/// it: the first bare quote after the body's escapes is the final one.
proof fn lemma_closing_scan(q: Seq<char>, i: int, s: Seq<char>)
    requires
        0 <= i <= q.len(),
        q.subrange(i, q.len() as int) == escape_seq(s) + seq!['"'],
    ensures
        closing_quote_from(q, i) == Some(q.len() - 1),
    decreases s.len(),
{
    let suffix = q.subrange(i, q.len() as int);
    assert forall|k: int| 0 <= k < suffix.len() implies q[i + k] == suffix[k] by {
        assert(suffix[k] == q.subrange(i, q.len() as int)[k]);
    }
    assert(suffix.len() == escape_seq(s).len() + 1);
    if s.len() == 0 {
        assert(suffix =~= seq!['"']);
        assert(q[i] == suffix[0]);
        assert(q[i] == '"');
        assert(i == q.len() - 1);
    } else {
        let c = s[0];
        let rest = s.drop_first();
        assert(escape_seq(s) == escape_char(c) + escape_seq(rest));
        if c == '\\' || c == '"' || c == '\n' || c == '\r' || c == '\t' {
            assert(escape_char(c).len() == 2);
            assert(suffix[0] == escape_char(c)[0]);
            assert(q[i] == suffix[0]);
            assert(q[i] == '\\');
            assert(i + 1 < q.len());
            assert(q.subrange(i + 2, q.len() as int) =~= escape_seq(rest) + seq!['"']) by {
                assert forall|k: int| 0 <= k < q.len() - i - 2 implies q.subrange(
                    i + 2,
                    q.len() as int,
                )[k] == (escape_seq(rest) + seq!['"'])[k] by {
                    assert(q.subrange(i + 2, q.len() as int)[k] == q[i + 2 + k]);
                    assert(q[i + 2 + k] == suffix[2 + k]);
                    assert(suffix[2 + k] == (escape_seq(s) + seq!['"'])[2 + k]);
                }
            }
            lemma_closing_scan(q, i + 2, rest);
        } else {
            assert(escape_char(c) =~= seq![c]);
            assert(suffix[0] == c);
            assert(q[i] == suffix[0]);
            assert(c != '\\' && c != '"');
            assert(q.subrange(i + 1, q.len() as int) =~= escape_seq(rest) + seq!['"']) by {
                assert forall|k: int| 0 <= k < q.len() - i - 1 implies q.subrange(
                    i + 1,
                    q.len() as int,
                )[k] == (escape_seq(rest) + seq!['"'])[k] by {
                    assert(q.subrange(i + 1, q.len() as int)[k] == q[i + 1 + k]);
                    assert(q[i + 1 + k] == suffix[1 + k]);
                    assert(suffix[1 + k] == (escape_seq(s) + seq!['"'])[1 + k]);
                }
            }
            lemma_closing_scan(q, i + 1, rest);
        }
    }
}

/// A quoted string literal written by the encoder reads back as exactly the
/// string it was written from.
proof fn lemma_quoted_string_reads_back(s: Seq<char>)
    ensures
        string_literal_spec(seq!['"'] + escape_seq(s) + seq!['"']) == Some(s),
{
    let q = seq!['"'] + escape_seq(s) + seq!['"'];
    assert(q[0] == '"');
    assert(q.last() == '"');
    assert(!is_ws_char('"'));
    lemma_trim_of_unpadded(q);
    assert(q.subrange(1, q.len() as int) =~= escape_seq(s) + seq!['"']);
    lemma_closing_scan(q, 1, s);
    assert(closing_quote_from(q, 1) == Some(q.len() - 1));
    assert(q.subrange(1, q.len() - 1) =~= escape_seq(s));
    lemma_unescape_escape(s);
}

/// The keyword literals and grammar-valid numbers are already trimmed.
proof fn lemma_plain_token_trimmed(t: Seq<char>)
    requires
        t.len() > 0,
        !is_ws_char(t[0]),
        !is_ws_char(t.last()),
    ensures
        trim_seq(t) == t,
{
    lemma_trim_of_unpadded(t);
}

/// Round trip of primitives: every canonical primitive the encoder writes —
/// null, a boolean, a canonical number, or a string, quoted or bare — is
/// read back by the tokenizer as exactly itself, under any delimiter.
///
/// This is the primitive leg of the codec's round-trip guarantee: it rests
/// on the escape/unescape inverse, on the quoting rules, and on numeric
/// canonicalization being a fixed point.
pub proof fn lemma_primitive_round_trip(p: PrimModel, delimiter: char)
    requires
        prim_normal(p),
    ensures
        primitive_token_spec(encode_prim_spec(p, delimiter)) == Some(p),
{
    match p {
        PrimModel::Null => {
            let t = null_lit();
            assert(!is_ws_char('n') && !is_ws_char('l'));
            lemma_plain_token_trimmed(t);
            assert(t != true_lit()) by {
                if t == true_lit() {
                    assert(t[0] == 't');
                }
            }
            assert(t != false_lit()) by {
                if t == false_lit() {
                    assert(t[0] == 'f');
                }
            }
        },
        PrimModel::Bool(b) => {
            if b {
                let t = true_lit();
                assert(!is_ws_char('t') && !is_ws_char('e'));
                lemma_plain_token_trimmed(t);
            } else {
                let t = false_lit();
                assert(!is_ws_char('f') && !is_ws_char('e'));
                lemma_plain_token_trimmed(t);
            }
        },
        PrimModel::Num(t) => {
            lemma_canon_number_grammar(t);
            lemma_number_shape(t);
            assert(!is_ws_char('-'));
            assert(!is_ws_char(t[0]));
            assert(!is_ws_char(t.last()));
            lemma_plain_token_trimmed(t);
            assert(t[0] != '"');
            assert(t != true_lit()) by {
                if t == true_lit() {
                    assert(t[0] == 't');
                }
            }
            assert(t != false_lit()) by {
                if t == false_lit() {
                    assert(t[0] == 'f');
                }
            }
            assert(t != null_lit()) by {
                if t == null_lit() {
                    assert(t[0] == 'n');
                }
            }
            lemma_canon_number_fixed(t);
        },
        PrimModel::Str(s) => {
            if safe_unquoted(s, delimiter) {
                let t = s;
                assert(trim_seq(t) == t);
                assert(t[0] != '"');
                assert(!json_number_core(t)) by {
                    if json_number_core(t) {
                        lemma_number_is_numeric_like(t);
                        assert(numeric_like_core(trim_seq(t)));
                    }
                }
            } else {
                lemma_quoted_string_reads_back(s);
                let q = seq!['"'] + escape_seq(s) + seq!['"'];
                assert(trim_seq(q) == q) by {
                    lemma_trim_of_unpadded(q);
                }
                assert(q[0] == '"');
            }
        },
    }
}


/// The node the builder makes of a value: the same tree, with each key that
/// cannot be written bare marked quoted.
pub open spec fn node_of(v: ValueModel) -> NodeModel
    decreases v, 2int,
{
    match v {
        ValueModel::Prim(p) => NodeModel::Prim(p),
        ValueModel::Arr(items) => NodeModel::Arr(node_of_items(items)),
        ValueModel::Obj(entries) => NodeModel::Obj {
            entries: node_of_entries(entries),
            quoted: quoted_of(entries),
        },
    }
}

/// The nodes of an array's items, in order.
pub open spec fn node_of_items(items: Seq<ValueModel>) -> Seq<NodeModel>
    decreases items, 1int,
{
    if items.len() == 0 {
        Seq::empty()
    } else {
        seq![node_of(items[0])] + node_of_items(items.drop_first())
    }
}

/// The nodes of an object's entries, in order.
pub open spec fn node_of_entries(entries: Seq<(Seq<char>, ValueModel)>) -> Seq<
    (Seq<char>, NodeModel),
>
    decreases entries, 1int,
{
    if entries.len() == 0 {
        Seq::empty()
    } else {
        seq![(entries[0].0, node_of(entries[0].1))] + node_of_entries(entries.drop_first())
    }
}

/// The keys an object's events mark as quoted, in order.
pub open spec fn quoted_of(entries: Seq<(Seq<char>, ValueModel)>) -> Seq<Seq<char>>
    decreases entries,
{
    if entries.len() == 0 {
        Seq::empty()
    } else {
        let rest = quoted_of(entries.drop_first());
        if !is_unquoted_key(entries[0].0) {
            seq![entries[0].0] + rest
        } else {
            rest
        }
    }
}

/// Running a value's events attaches its node wherever a node can attach.
proof fn lemma_run_value(st: BuildStateModel, v: ValueModel)
    requires
        attach_model(st, node_of(v)) is Some,
    ensures
        run_events(st, events_of_value(v)) == attach_model(st, node_of(v)),
    decreases v, 2int,
{
    match v {
        ValueModel::Prim(p) => {
            let es = events_of_value(v);
            assert(es =~= seq![EventModel::Prim(p)]);
            assert(es[0] == EventModel::Prim(p));
            reveal_with_fuel(run_events, 3);
            assert(es.drop_first() =~= Seq::<EventModel>::empty());
        },
        ValueModel::Arr(items) => {
            let frame = CtxModel::Arr { items: Seq::empty() };
            let st1 = BuildStateModel { stack: st.stack.push(frame), root: st.root };
            let es = events_of_value(v);
            assert(es =~= seq![EventModel::StartArr(items.len() as int)] + events_of_items(items)
                + seq![EventModel::EndArr]);
            assert(es[0] == EventModel::StartArr(items.len() as int));
            assert(apply_event_model(st, es[0]) == Some(st1));
            assert(es.drop_first() =~= events_of_items(items) + seq![EventModel::EndArr]);
            lemma_run_items(st1, items, Seq::empty());
            let st2 = BuildStateModel {
                stack: st1.stack.update(
                    st1.stack.len() - 1,
                    CtxModel::Arr { items: Seq::empty() + node_of_items(items) },
                ),
                root: st1.root,
            };
            assert(Seq::empty() + node_of_items(items) =~= node_of_items(items));
            lemma_run_concat(st1, events_of_items(items), seq![EventModel::EndArr]);
            assert(st2.stack.last() == CtxModel::Arr { items: node_of_items(items) });
            assert(st2.stack.drop_last() =~= st.stack);
            assert(apply_event_model(st2, EventModel::EndArr) == attach_model(
                st,
                NodeModel::Arr(node_of_items(items)),
            ));
            assert(run_events(st2, seq![EventModel::EndArr]) == apply_event_model(
                st2,
                EventModel::EndArr,
            )) by {
                reveal_with_fuel(run_events, 3);
                assert(seq![EventModel::EndArr][0] == EventModel::EndArr);
                assert(seq![EventModel::EndArr].drop_first() =~= Seq::<EventModel>::empty());
            }
            assert(run_events(st, es) == run_events(st1, es.drop_first()));
        },
        ValueModel::Obj(entries) => {
            let frame = CtxModel::Obj { entries: Seq::empty(), pending: None, quoted: Seq::empty() };
            let st1 = BuildStateModel { stack: st.stack.push(frame), root: st.root };
            let es = events_of_value(v);
            assert(es =~= seq![EventModel::StartObj] + events_of_entries(entries)
                + seq![EventModel::EndObj]);
            assert(es[0] == EventModel::StartObj);
            assert(apply_event_model(st, es[0]) == Some(st1));
            assert(es.drop_first() =~= events_of_entries(entries) + seq![EventModel::EndObj]);
            lemma_run_entries(st1, entries, Seq::empty(), Seq::empty());
            let st2 = BuildStateModel {
                stack: st1.stack.update(
                    st1.stack.len() - 1,
                    CtxModel::Obj {
                        entries: Seq::empty() + node_of_entries(entries),
                        pending: None,
                        quoted: Seq::empty() + quoted_of(entries),
                    },
                ),
                root: st1.root,
            };
            assert(Seq::empty() + node_of_entries(entries) =~= node_of_entries(entries));
            assert(Seq::empty() + quoted_of(entries) =~= quoted_of(entries));
            lemma_run_concat(st1, events_of_entries(entries), seq![EventModel::EndObj]);
            assert(st2.stack.last() == CtxModel::Obj {
                entries: node_of_entries(entries),
                pending: None,
                quoted: quoted_of(entries),
            });
            assert(st2.stack.drop_last() =~= st.stack);
            assert(apply_event_model(st2, EventModel::EndObj) == attach_model(
                st,
                NodeModel::Obj { entries: node_of_entries(entries), quoted: quoted_of(entries) },
            ));
            assert(run_events(st2, seq![EventModel::EndObj]) == apply_event_model(
                st2,
                EventModel::EndObj,
            )) by {
                reveal_with_fuel(run_events, 3);
                assert(seq![EventModel::EndObj][0] == EventModel::EndObj);
                assert(seq![EventModel::EndObj].drop_first() =~= Seq::<EventModel>::empty());
            }
            assert(run_events(st, es) == run_events(st1, es.drop_first()));
        },
    }
}

/// The state once an item list's nodes are appended to the open array.
spec fn items_result(st: BuildStateModel, items: Seq<ValueModel>, acc: Seq<NodeModel>) -> BuildStateModel {
    BuildStateModel {
        stack: st.stack.update(
            st.stack.len() - 1,
            CtxModel::Arr { items: acc + node_of_items(items) },
        ),
        root: st.root,
    }
}

/// Running an item list's events appends their nodes to the open array.
proof fn lemma_run_items(st: BuildStateModel, items: Seq<ValueModel>, acc: Seq<NodeModel>)
    requires
        st.stack.len() > 0,
        st.stack.last() == (CtxModel::Arr { items: acc }),
    ensures
        run_events(st, events_of_items(items)) == Some(items_result(st, items, acc)),
    decreases items, 1int,
{
    if items.len() == 0 {
        assert(acc + node_of_items(items) =~= acc);
        assert(st.stack.update(st.stack.len() - 1, CtxModel::Arr { items: acc }) =~= st.stack);
    } else {
        let st_mid = BuildStateModel {
            stack: st.stack.update(
                st.stack.len() - 1,
                CtxModel::Arr { items: acc.push(node_of(items[0])) },
            ),
            root: st.root,
        };
        assert(attach_model(st, node_of(items[0])) == Some(st_mid));
        lemma_run_value(st, items[0]);
        lemma_run_concat(st, events_of_value(items[0]), events_of_items(items.drop_first()));
        assert(events_of_items(items) == events_of_value(items[0]) + events_of_items(
            items.drop_first(),
        ));
        assert(st_mid.stack.last() == CtxModel::Arr { items: acc.push(node_of(items[0])) });
        lemma_run_items(st_mid, items.drop_first(), acc.push(node_of(items[0])));
        assert(acc.push(node_of(items[0])) + node_of_items(items.drop_first()) =~= acc
            + node_of_items(items));
        assert(st_mid.stack.update(
            st_mid.stack.len() - 1,
            CtxModel::Arr { items: acc + node_of_items(items) },
        ) =~= st.stack.update(
            st.stack.len() - 1,
            CtxModel::Arr { items: acc + node_of_items(items) },
        ));
    }
}

/// The state once an entry list's keyed nodes are appended to the open
/// object.
spec fn entries_result(
    st: BuildStateModel,
    entries: Seq<(Seq<char>, ValueModel)>,
    acc: Seq<(Seq<char>, NodeModel)>,
    accq: Seq<Seq<char>>,
) -> BuildStateModel {
    BuildStateModel {
        stack: st.stack.update(
            st.stack.len() - 1,
            CtxModel::Obj {
                entries: acc + node_of_entries(entries),
                pending: None,
                quoted: accq + quoted_of(entries),
            },
        ),
        root: st.root,
    }
}

/// Running an entry list's events appends their keyed nodes to the open
/// object and records its quoted keys.
proof fn lemma_run_entries(
    st: BuildStateModel,
    entries: Seq<(Seq<char>, ValueModel)>,
    acc: Seq<(Seq<char>, NodeModel)>,
    accq: Seq<Seq<char>>,
)
    requires
        st.stack.len() > 0,
        st.stack.last() == (CtxModel::Obj { entries: acc, pending: None, quoted: accq }),
    ensures
        run_events(st, events_of_entries(entries)) == Some(entries_result(st, entries, acc, accq)),
    decreases entries, 1int,
{
    if entries.len() == 0 {
        assert(acc + node_of_entries(entries) =~= acc);
        assert(accq + quoted_of(entries) =~= accq);
        assert(st.stack.update(
            st.stack.len() - 1,
            CtxModel::Obj { entries: acc, pending: None, quoted: accq },
        ) =~= st.stack);
    } else {
        let key = entries[0].0;
        let q = !is_unquoted_key(key);
        let newq: Seq<Seq<char>> = if q {
            accq.push(key)
        } else {
            accq
        };
        let st_key = BuildStateModel {
            stack: st.stack.update(
                st.stack.len() - 1,
                CtxModel::Obj { entries: acc, pending: Some(key), quoted: newq },
            ),
            root: st.root,
        };
        assert(apply_event_model(st, EventModel::Key(key, q)) == Some(st_key));
        let st_val = BuildStateModel {
            stack: st.stack.update(
                st.stack.len() - 1,
                CtxModel::Obj {
                    entries: acc.push((key, node_of(entries[0].1))),
                    pending: None,
                    quoted: newq,
                },
            ),
            root: st.root,
        };
        assert(st_key.stack.last() == CtxModel::Obj {
            entries: acc,
            pending: Some(key),
            quoted: newq,
        });
        assert(st_key.stack.update(
            st_key.stack.len() - 1,
            CtxModel::Obj {
                entries: acc.push((key, node_of(entries[0].1))),
                pending: None,
                quoted: newq,
            },
        ) =~= st_val.stack);
        assert(attach_model(st_key, node_of(entries[0].1)) == Some(st_val));
        lemma_run_value(st_key, entries[0].1);
        let piece = seq![EventModel::Key(key, q)] + events_of_value(entries[0].1);
        assert(events_of_entries(entries) == piece + events_of_entries(entries.drop_first()));
        lemma_run_concat(st, piece, events_of_entries(entries.drop_first()));
        assert(run_events(st, piece) == Some(st_val)) by {
            assert(piece[0] == EventModel::Key(key, q));
            assert(piece.drop_first() =~= events_of_value(entries[0].1));
        }
        assert(st_val.stack.last() == CtxModel::Obj {
            entries: acc.push((key, node_of(entries[0].1))),
            pending: None,
            quoted: newq,
        });
        lemma_run_entries(
            st_val,
            entries.drop_first(),
            acc.push((key, node_of(entries[0].1))),
            newq,
        );
        assert(acc.push((key, node_of(entries[0].1))) + node_of_entries(entries.drop_first())
            =~= acc + node_of_entries(entries));
        assert(newq + quoted_of(entries.drop_first()) =~= accq + quoted_of(entries));
        assert(st_val.stack.update(
            st_val.stack.len() - 1,
            CtxModel::Obj {
                entries: acc + node_of_entries(entries),
                pending: None,
                quoted: accq + quoted_of(entries),
            },
        ) =~= st.stack.update(
            st.stack.len() - 1,
            CtxModel::Obj {
                entries: acc + node_of_entries(entries),
                pending: None,
                quoted: accq + quoted_of(entries),
            },
        ));
    }
}

/// Dropping the quoted-key marks from a value's node gives the value back.
proof fn lemma_node_of_strips(v: ValueModel)
    ensures
        node_strip(node_of(v)) == v,
    decreases v, 2int,
{
    match v {
        ValueModel::Prim(_) => {},
        ValueModel::Arr(items) => {
            lemma_node_of_items_strips(items);
        },
        ValueModel::Obj(entries) => {
            lemma_node_of_entries_strips(entries);
        },
    }
}

proof fn lemma_node_of_items_strips(items: Seq<ValueModel>)
    ensures
        node_strip_arr(node_of_items(items)) == items,
    decreases items, 1int,
{
    if items.len() == 0 {
        assert(node_strip_arr(node_of_items(items)) =~= items);
    } else {
        lemma_node_of_strips(items[0]);
        lemma_node_of_items_strips(items.drop_first());
        assert(node_of_items(items)[0] == node_of(items[0]));
        assert(node_of_items(items).drop_first() =~= node_of_items(items.drop_first()));
        assert(node_strip_arr(node_of_items(items)) =~= items);
    }
}

proof fn lemma_node_of_entries_strips(entries: Seq<(Seq<char>, ValueModel)>)
    ensures
        node_strip_obj(node_of_entries(entries)) == entries,
    decreases entries, 1int,
{
    if entries.len() == 0 {
        assert(node_strip_obj(node_of_entries(entries)) =~= entries);
    } else {
        lemma_node_of_strips(entries[0].1);
        lemma_node_of_entries_strips(entries.drop_first());
        assert(node_of_entries(entries)[0] == (entries[0].0, node_of(entries[0].1)));
        assert(node_of_entries(entries).drop_first() =~= node_of_entries(entries.drop_first()));
        assert(node_strip_obj(node_of_entries(entries)) =~= entries);
    }
}

/// The shared canonical representation is sound: the event stream the
/// encoder emits for any value is accepted by the event builder, and what
/// the builder reconstructs from it is that value, with each key that could
/// not be written bare marked quoted — so the rebuilt tree reads back as
/// the value itself once those marks are dropped.
pub proof fn lemma_event_stream_round_trip(v: ValueModel)
    ensures
        build_spec(events_of_value(v)) == Some(node_of(v)),
        node_strip(node_of(v)) == v,
{
    let st0 = init_build_state();
    assert(attach_model(st0, node_of(v)) == Some(
        BuildStateModel { stack: st0.stack, root: Some(node_of(v)) },
    ));
    lemma_run_value(st0, v);
    lemma_node_of_strips(v);
}


/// A single-child object chain over `segs`, ending in `leaf`.
pub open spec fn value_chain(segs: Seq<Seq<char>>, leaf: ValueModel) -> ValueModel
    decreases segs.len(),
{
    if segs.len() == 0 {
        leaf
    } else {
        ValueModel::Obj(seq![(segs[0], value_chain(segs.drop_first(), leaf))])
    }
}

/// The same chain on the decode side, with no quoted-key marks.
pub open spec fn node_chain(segs: Seq<Seq<char>>, leaf: NodeModel) -> NodeModel
    decreases segs.len(),
{
    if segs.len() == 0 {
        leaf
    } else {
        NodeModel::Obj {
            entries: seq![(segs[0], node_chain(segs.drop_first(), leaf))],
            quoted: Seq::empty(),
        }
    }
}

/// Is the chain end something the collapse would not walk into: anything
/// but a single-entry object?
pub open spec fn chain_end_value(leaf: ValueModel) -> bool {
    !(leaf matches ValueModel::Obj { .. } && leaf->Obj_0.len() == 1)
}

/// Key folding's walk recovers a chain's segments exactly: collapsing the
/// single-child chain over `segs` collects `segs`, and what remains under
/// the folded key is the chain's end.
pub proof fn lemma_chain_collect_recovers(segs: Seq<Seq<char>>, leaf: ValueModel, max: int)
    requires
        segs.len() >= 1,
        segs.len() <= max,
        chain_end_value(leaf),
    ensures
        ({
            let c = chain_collect(segs[0], value_chain(segs.drop_first(), leaf), max);
            &&& c.0 == segs
            &&& c.2 == leaf
            &&& c.1 == (match leaf {
                ValueModel::Obj(entries) => if entries.len() == 0 {
                    None::<ValueModel>
                } else {
                    Some(leaf)
                },
                _ => None::<ValueModel>,
            })
        }),
    decreases segs.len(),
{
    let rest = segs.drop_first();
    let v = value_chain(rest, leaf);
    if rest.len() == 0 {
        assert(v == leaf);
        assert(!(1 < max && (v matches ValueModel::Obj { .. }) && v->Obj_0.len() == 1));
        let c = chain_collect(segs[0], v, max);
        assert(c.0 =~= segs);
    } else {
        assert(v == ValueModel::Obj(seq![(rest[0], value_chain(rest.drop_first(), leaf))]));
        assert(v->Obj_0.len() == 1);
        assert(1 < max);
        lemma_chain_collect_recovers(rest, leaf, max - 1);
        let sub = chain_collect(rest[0], value_chain(rest.drop_first(), leaf), max - 1);
        assert(v->Obj_0[0].0 == rest[0]);
        assert(v->Obj_0[0].1 == value_chain(rest.drop_first(), leaf));
        let c = chain_collect(segs[0], v, max);
        assert(c.0 == seq![segs[0]] + sub.0);
        assert(seq![segs[0]] + rest =~= segs);
    }
}

/// Path expansion rebuilds a collapsed chain exactly: inserting a value
/// under the segment path into an empty object yields the single-child
/// chain over those segments, in any mode. With
/// [`lemma_chain_collect_recovers`], the two structural transforms are
/// inverse on single-child chains.
pub proof fn lemma_insert_path_rebuilds_chain(segs: Seq<Seq<char>>, leaf: NodeModel, strict: bool)
    requires
        segs.len() >= 1,
    ensures
        insert_path_model(Seq::empty(), segs, leaf, strict) == Some(
            seq![(segs[0], node_chain(segs.drop_first(), leaf))],
        ),
    decreases segs.len(),
{
    let empty_entries = Seq::<(Seq<char>, NodeModel)>::empty();
    if segs.len() == 1 {
        assert(entry_index_of(empty_entries, segs[0]) is None);
        assert(merge_one_model(empty_entries, segs[0], leaf, strict) == Some(
            empty_entries.push((segs[0], leaf)),
        ));
        assert(empty_entries.push((segs[0], leaf)) =~= seq![
            (segs[0], node_chain(segs.drop_first(), leaf)),
        ]);
    } else {
        assert(entry_index_of(empty_entries, segs[0]) is None);
        lemma_insert_path_rebuilds_chain(segs.drop_first(), leaf, strict);
        let inner = seq![(segs.drop_first()[0], node_chain(segs.drop_first().drop_first(), leaf))];
        assert(insert_path_model(Seq::empty(), segs.drop_first(), leaf, strict) == Some(inner));
        assert(empty_entries.push(
            (segs[0], NodeModel::Obj { entries: inner, quoted: Seq::empty() }),
        ) =~= seq![(segs[0], node_chain(segs.drop_first(), leaf))]);
    }
}

} // verus!
