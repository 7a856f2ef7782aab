//! The library's entry points: decode TOON text or lines to a JSON value or
//! an event stream, and encode a JSON value to TOON text, lines, or the
//! same canonical event stream the decoder emits.

use vstd::prelude::*;

verus! {

use crate::value::{JsonValue, JsonStreamEvent, ValueModel, value_model, norm_model,
    normalize_json_value, lemma_arr_model, lemma_obj_model, arr_model, obj_model};
use crate::events::{EventModel, event_model, build_node_from_events, node_to_json, node_model,
    NodeModel, node_strip, build_spec, run_events, init_build_state, apply_event_model,
    BuildStateModel, lemma_two_event_empty_object};
use crate::expand::{expand_paths_safe, expand_node_model};
use crate::encoders::{all_prim_entries, flat_entry_line};
use crate::decoders::{decode_stream_sync, first_line_inline_mismatch, kv_line_spec};
use crate::scanner::{line_blank, scan_lines_spec, ScannedLine};
use crate::parser::{array_header_content, header_spec, primitive_token_spec, HeaderOutcome};
use crate::options::{DecodeOptions, DecodeStreamOptions, EncodeOptions, resolve_decode_options,
    resolve_encode_options, ExpandPathsMode};
use crate::error::Result;
use crate::keys::{is_unquoted_key, chars_valid_unquoted_key};
use crate::text::chars_of;

/// Split text at every newline; no trimming, empty pieces kept.
pub open spec fn lines_split_from(s: Seq<char>, i: int, buf: Seq<char>, acc: Seq<Seq<char>>) -> Seq<
    Seq<char>,
>
    decreases s.len() - i,
{
    if i < 0 {
        acc
    } else if i >= s.len() {
        acc.push(buf)
    } else if s[i] == '\n' {
        lines_split_from(s, i + 1, Seq::empty(), acc.push(buf))
    } else {
        lines_split_from(s, i + 1, buf.push(s[i]), acc)
    }
}

/// The newline-separated lines of the input; text without a newline is one
/// line.
pub open spec fn split_lines(s: Seq<char>) -> Seq<Seq<char>> {
    lines_split_from(s, 0, Seq::empty(), Seq::empty())
}

/// Split input text into lines at `\n`.
pub fn split_input_lines(input: &str) -> (r: Vec<String>)
    ensures
        r@.map_values(|v: String| v@) == split_lines(input@),
{
    let cs = chars_of(input);
    let mut acc: Vec<String> = Vec::new();
    let mut buf: Vec<char> = Vec::new();
    let mut i: usize = 0;
    proof {
        assert(buf@ =~= Seq::<char>::empty());
        assert(acc@.map_values(|v: String| v@) =~= Seq::<Seq<char>>::empty());
    }
    while i < cs.len()
        invariant
            0 <= i <= cs@.len(),
            cs@ == input@,
            split_lines(cs@) == lines_split_from(
                cs@,
                i as int,
                buf@,
                acc@.map_values(|v: String| v@),
            ),
        decreases cs.len() - i,
    {
        let ghost acc0 = acc@.map_values(|v: String| v@);
        if cs[i] == '\n' {
            acc.push(crate::text::string_from_chars(buf.as_slice()));
            buf = Vec::new();
            proof {
                assert(acc@.map_values(|v: String| v@) =~= acc0.push(acc@.last()@));
                assert(buf@ =~= Seq::<char>::empty());
            }
        } else {
            buf.push(cs[i]);
        }
        i += 1;
    }
    let ghost acc0 = acc@.map_values(|v: String| v@);
    acc.push(crate::text::string_from_chars(buf.as_slice()));
    proof {
        assert(acc@.map_values(|v: String| v@) =~= acc0.push(acc@.last()@));
    }
    acc
}

/// Is every line of the split input blank?
pub open spec fn all_lines_blank(lines: Seq<Seq<char>>) -> bool {
    forall|k: int| 0 <= k < lines.len() ==> line_blank(#[trigger] lines[k])
}

/// The model of the empty object.
pub open spec fn empty_object_model() -> ValueModel {
    ValueModel::Obj(Seq::empty())
}

/// Decode TOON lines into a stream of events.
///
/// Fails when scanning fails under strict mode, a line is malformed, or a
/// strict-mode count or blank-line rule is violated; input with no content
/// lines yields exactly `StartObject`, `EndObject`.
pub fn try_decode_stream_sync(lines: Vec<String>, options: Option<DecodeStreamOptions>) -> (r:
    Result<Vec<JsonStreamEvent>>)
    ensures
        match r {
            Result::Ok(events) => {
                &&& events@.len() >= 1
                &&& build_spec(events@.map_values(|e: JsonStreamEvent| event_model(e))) is Some
                &&& (events@[0] matches JsonStreamEvent::StartObject || events@[0] matches
                    JsonStreamEvent::StartArray { .. } || events@[0] matches
                    JsonStreamEvent::Primitive { .. })
                &&& (forall|k: int| 0 <= k < lines@.len() ==> line_blank(#[trigger] lines@[k]@))
                    ==> events@.len() == 2 && events@[0] == JsonStreamEvent::StartObject
                    && events@[1] == JsonStreamEvent::EndObject
            },
            Result::Err(_) => !(forall|k: int|
                0 <= k < lines@.len() ==> line_blank(#[trigger] lines@[k]@)),
        },
{
    decode_stream_sync(lines, options)
}

/// Does this configuration ask for safe path expansion?
pub open spec fn expansion_on(options: Option<DecodeOptions>) -> bool {
    match options {
        Option::Some(o) => match o.expand_paths {
            Option::Some(m) => m == ExpandPathsMode::Safe,
            Option::None => false,
        },
        Option::None => false,
    }
}

/// Is this configuration strict?
pub open spec fn strictness_of(options: Option<DecodeOptions>) -> bool {
    match options {
        Option::Some(o) => match o.strict {
            Option::Some(b) => b,
            Option::None => true,
        },
        Option::None => true,
    }
}

/// The indent width this configuration scans with.
pub open spec fn indent_of(options: Option<DecodeOptions>) -> int {
    match options {
        Option::Some(o) => match o.indent {
            Option::Some(v) => v as int,
            Option::None => 2,
        },
        Option::None => 2,
    }
}

/// Does the scanned input hold exactly one content line that is neither a
/// key-value line nor an array header: a bare-primitive document?
pub open spec fn single_primitive_doc(scanned: Seq<ScannedLine>) -> bool {
    &&& scanned.len() == 1
    &&& !kv_line_spec(scanned[0].content)
    &&& !(array_header_content(scanned[0].content) && header_spec(scanned[0].content, ',')
        matches HeaderOutcome::Header { .. })
}

/// Decode TOON lines into a JSON value: scan, emit events, build the tree,
/// and expand dotted paths when asked to.
///
/// Every successful result is the quoted-mark-free reading of a tree the
/// event builder accepted — that is, of a well-formed event sequence —
/// expanded when the options ask for it. Input with no content lines
/// decodes to the empty object. Fails when decoding fails or when
/// strict-mode path expansion hits a merge conflict.
pub fn try_decode_from_lines(lines: Vec<String>, options: Option<DecodeOptions>) -> (r: Result<
    JsonValue,
>)
    ensures
        (forall|k: int| 0 <= k < lines@.len() ==> line_blank(#[trigger] lines@[k]@)) ==> (r matches
            Ok(v) && value_model(v) == empty_object_model()),
        r matches Ok(v) ==> exists|es: Seq<EventModel>, built: NodeModel, shown: NodeModel|
            #![trigger build_spec(es), expand_node_model(built, strictness_of(options)), node_strip(shown)]
            {
                &&& build_spec(es) == Some(built)
                &&& if expansion_on(options) {
                    expand_node_model(built, strictness_of(options)) == Some(shown)
                } else {
                    shown == built
                }
                &&& value_model(v) == node_strip(shown)
            },
        r matches Ok(v) ==> ({
            let scanned = scan_lines_spec(
                lines@.map_values(|s: String| s@),
                indent_of(options),
                1,
            );
            single_primitive_doc(scanned) ==> value_model(v) == ValueModel::Prim(
                primitive_token_spec(scanned[0].content).unwrap(),
            )
        }),
        first_line_inline_mismatch(
            scan_lines_spec(lines@.map_values(|s: String| s@), indent_of(options), 1),
            strictness_of(options),
        ) ==> r is Err,
{
    let ghost all_blank = forall|k: int|
        0 <= k < lines@.len() ==> line_blank(#[trigger] lines@[k]@);
    let resolved = resolve_decode_options(options);
    let events = match decode_stream_sync(
        lines,
        Some(DecodeStreamOptions { indent: Some(resolved.indent), strict: Some(resolved.strict) }),
    ) {
        Result::Ok(events) => events,
        Result::Err(e) => {
            return Err(e);
        },
    };
    let ghost es = events@.map_values(|e: JsonStreamEvent| event_model(e));
    let ghost scanned = scan_lines_spec(
        lines@.map_values(|s: String| s@),
        indent_of(options),
        1,
    );

    proof {
        if all_blank {
            lemma_two_event_empty_object(es);
        }
        if single_primitive_doc(scanned) {
            assert(es =~= seq![es[0]]);
            lemma_build_single_primitive(es);
        }
    }

    let node = match build_node_from_events(events) {
        Result::Ok(node) => node,
        Result::Err(e) => {
            proof {
                assert(!all_blank);
            }
            return Err(e);
        },
    };
    let ghost built = node_model(node);

    let node = if matches!(resolved.expand_paths, ExpandPathsMode::Safe) {
        match expand_paths_safe(node, resolved.strict) {
            Result::Ok(n) => n,
            Result::Err(e) => {
                proof {
                    if all_blank {
                        assert(expand_node_model(
                            NodeModel::Obj { entries: Seq::empty(), quoted: Seq::empty() },
                            resolved.strict,
                        ) matches Some(m));
                    }
                }
                return Err(e);
            },
        }
    } else {
        node
    };
    let ghost shown = node_model(node);

    let out = node_to_json(node);
    proof {
        if all_blank {
            assert(value_model(out) =~~= empty_object_model());
        }
        assert(build_spec(es) == Some(built));
        assert(value_model(out) == node_strip(shown));
        assert(strictness_of(options) == resolved.strict);
        assert(expansion_on(options) == (resolved.expand_paths == ExpandPathsMode::Safe));
        if expansion_on(options) {
            assert(expand_node_model(built, strictness_of(options)) == Some(shown));
        } else {
            assert(shown == built);
            assert(expand_node_model(built, strictness_of(options)) == expand_node_model(
                built,
                strictness_of(options),
            ));
        }
        if single_primitive_doc(scanned) {
            assert(value_model(out) == node_strip(shown));
            assert(built == NodeModel::Prim(primitive_token_spec(scanned[0].content).unwrap()));
        }
        assert(exists|es2: Seq<EventModel>, built2: NodeModel, shown2: NodeModel|
            #![trigger build_spec(es2), expand_node_model(built2, strictness_of(options)), node_strip(shown2)]
            {
                &&& build_spec(es2) == Some(built2)
                &&& if expansion_on(options) {
                    expand_node_model(built2, strictness_of(options)) == Some(shown2)
                } else {
                    shown2 == built2
                }
                &&& value_model(out) == node_strip(shown2)
            });
    }
    Ok(out)
}

/// A one-primitive event stream builds exactly that primitive.
proof fn lemma_build_single_primitive(es: Seq<EventModel>)
    requires
        es.len() == 1,
        es[0] matches EventModel::Prim(_),
    ensures
        es[0] matches EventModel::Prim(p) ==> build_spec(es) == Some(NodeModel::Prim(p)),
{
    assert(es.drop_first() =~= Seq::<EventModel>::empty());
    match es[0] {
        EventModel::Prim(p) => {
            let st0 = init_build_state();
            let st1 = BuildStateModel { stack: Seq::empty(), root: Some(NodeModel::Prim(p)) };
            assert(apply_event_model(st0, es[0]) == Some(st1));
            assert(run_events(st0, es) == run_events(st1, es.drop_first()));
            assert(run_events(st1, es.drop_first()) == Some(st1));
        },
        _ => {},
    }
}

/// Decode a TOON string into a JSON value.
///
/// Every successful result is the quoted-mark-free reading of a tree the
/// event builder accepted, expanded when the options ask for it; empty or
/// all-blank input decodes to the empty object, and a document holding one
/// bare token decodes to exactly that primitive.
pub fn try_decode(input: &str, options: Option<DecodeOptions>) -> (r: Result<JsonValue>)
    ensures
        all_lines_blank(split_lines(input@)) ==> (r matches Ok(v) && value_model(v)
            == empty_object_model()),
        r matches Ok(v) ==> ({
            let scanned = scan_lines_spec(split_lines(input@), indent_of(options), 1);
            single_primitive_doc(scanned) ==> value_model(v) == ValueModel::Prim(
                primitive_token_spec(scanned[0].content).unwrap(),
            )
        }),
        r matches Ok(v) ==> exists|es: Seq<EventModel>, built: NodeModel, shown: NodeModel|
            #![trigger build_spec(es), expand_node_model(built, strictness_of(options)), node_strip(shown)]
            {
                &&& build_spec(es) == Some(built)
                &&& if expansion_on(options) {
                    expand_node_model(built, strictness_of(options)) == Some(shown)
                } else {
                    shown == built
                }
                &&& value_model(v) == node_strip(shown)
            },
{
    let lines = split_input_lines(input);
    proof {
        if all_lines_blank(split_lines(input@)) {
            assert forall|k: int| 0 <= k < lines@.len() implies line_blank(
                #[trigger] lines@[k]@,
            ) by {
                assert(lines@[k]@ == split_lines(input@)[k]);
            }
        }
    }
    let r = try_decode_from_lines(lines, options);
    proof {
        assert(lines@.map_values(|s: String| s@) == split_lines(input@));
    }
    r
}

/// The canonical event sequence of a value: primitives as one event, arrays
/// and objects bracketed by their start and end, each object entry led by
/// its key (marked quoted when it cannot be written bare).
pub open spec fn events_of_value(v: ValueModel) -> Seq<EventModel>
    decreases v, 2int,
{
    match v {
        ValueModel::Prim(p) => seq![EventModel::Prim(p)],
        ValueModel::Arr(items) => seq![EventModel::StartArr(items.len() as int)] + events_of_items(
            items,
        ) + seq![EventModel::EndArr],
        ValueModel::Obj(entries) => seq![EventModel::StartObj] + events_of_entries(entries)
            + seq![EventModel::EndObj],
    }
}

/// The events of an array's items, in order.
pub open spec fn events_of_items(items: Seq<ValueModel>) -> Seq<EventModel>
    decreases items, 1int,
{
    if items.len() == 0 {
        Seq::empty()
    } else {
        events_of_value(items[0]) + events_of_items(items.drop_first())
    }
}

/// The events of an object's entries, in order.
pub open spec fn events_of_entries(entries: Seq<(Seq<char>, ValueModel)>) -> Seq<EventModel>
    decreases entries, 1int,
{
    if entries.len() == 0 {
        Seq::empty()
    } else {
        seq![EventModel::Key(entries[0].0, !is_unquoted_key(entries[0].0))] + events_of_value(
            entries[0].1,
        ) + events_of_entries(entries.drop_first())
    }
}

proof fn lemma_events_items_snoc(items: Seq<ValueModel>, x: ValueModel)
    ensures
        events_of_items(items.push(x)) == events_of_items(items) + events_of_value(x),
    decreases items.len(),
{
    if items.len() == 0 {
        assert(items.push(x)[0] == x);
        assert(items.push(x).drop_first() =~= Seq::<ValueModel>::empty());
        assert(events_of_items(items.push(x).drop_first()).len() == 0);
        assert(events_of_items(items.push(x)) =~= events_of_items(items) + events_of_value(x));
    } else {
        assert(items.push(x)[0] == items[0]);
        assert(items.push(x).drop_first() =~= items.drop_first().push(x));
        lemma_events_items_snoc(items.drop_first(), x);
        assert(events_of_items(items.push(x)) =~= events_of_items(items) + events_of_value(x));
    }
}

proof fn lemma_events_entries_snoc(entries: Seq<(Seq<char>, ValueModel)>, e: (Seq<char>, ValueModel))
    ensures
        events_of_entries(entries.push(e)) == events_of_entries(entries) + (seq![
            EventModel::Key(e.0, !is_unquoted_key(e.0)),
        ] + events_of_value(e.1)),
    decreases entries.len(),
{
    let piece = seq![EventModel::Key(e.0, !is_unquoted_key(e.0))] + events_of_value(e.1);
    if entries.len() == 0 {
        assert(entries.push(e)[0] == e);
        assert(entries.push(e).drop_first() =~= Seq::<(Seq<char>, ValueModel)>::empty());
        assert(events_of_entries(entries.push(e).drop_first()).len() == 0);
        assert(events_of_entries(entries.push(e)) =~= events_of_entries(entries) + piece);
    } else {
        assert(entries.push(e)[0] == entries[0]);
        assert(entries.push(e).drop_first() =~= entries.drop_first().push(e));
        lemma_events_entries_snoc(entries.drop_first(), e);
        assert(events_of_entries(entries.push(e)) =~= events_of_entries(entries) + piece);
    }
}

/// Append the canonical events of `value` to `events`.
#[verifier::loop_isolation(false)]
fn emit_events(value: &JsonValue, events: &mut Vec<JsonStreamEvent>)
    ensures
        final(events)@.map_values(|e: JsonStreamEvent| event_model(e)) == old(events)@.map_values(
            |e: JsonStreamEvent| event_model(e),
        ) + events_of_value(value_model(*value)),
    decreases *value,
{
    let ghost before = events@.map_values(|e: JsonStreamEvent| event_model(e));
    match value {
        JsonValue::Primitive(p) => {
            events.push(JsonStreamEvent::Primitive { value: crate::value::clone_primitive(p) });
            proof {
                assert(events@.map_values(|e: JsonStreamEvent| event_model(e)) =~= before
                    + events_of_value(value_model(*value)));
            }
        },
        JsonValue::Array(items) => {
            proof {
                lemma_arr_model(items@);
            }
            events.push(JsonStreamEvent::StartArray { length: items.len() });
            proof {
                assert(events@.map_values(|e: JsonStreamEvent| event_model(e)) =~= before + seq![
                    EventModel::StartArr(arr_model(items@).len() as int),
                ]);
                assert(arr_model(items@).take(0) =~= Seq::<ValueModel>::empty());
            }
            let mut i: usize = 0;
            while i < items.len()
                invariant
                    0 <= i <= items@.len(),
                    events@.map_values(|e: JsonStreamEvent| event_model(e)) == before + seq![
                        EventModel::StartArr(arr_model(items@).len() as int),
                    ] + events_of_items(arr_model(items@).take(i as int)),
                decreases items.len() - i,
            {
                proof {
                    assert(decreases_to!(*value => *items));
                    assert(decreases_to!(items@ => items@[i as int]));
                    assert(arr_model(items@)[i as int] == value_model(items@[i as int]));
                }
                emit_events(&items[i], events);
                i += 1;
                proof {
                    assert(arr_model(items@).take(i as int) =~= arr_model(items@).take(
                        i - 1,
                    ).push(arr_model(items@)[i - 1]));
                    lemma_events_items_snoc(
                        arr_model(items@).take(i - 1),
                        arr_model(items@)[i - 1],
                    );
                    assert((before + seq![EventModel::StartArr(arr_model(items@).len() as int)]
                        + events_of_items(arr_model(items@).take(i - 1))) + events_of_value(
                        arr_model(items@)[i - 1],
                    ) =~= before + seq![EventModel::StartArr(arr_model(items@).len() as int)]
                        + events_of_items(arr_model(items@).take(i as int)));
                }
            }
            let ghost prev = events@.map_values(|e: JsonStreamEvent| event_model(e));
            events.push(JsonStreamEvent::EndArray);
            proof {
                assert(arr_model(items@).take(arr_model(items@).len() as int) =~= arr_model(
                    items@,
                ));
                assert(events@.map_values(|e: JsonStreamEvent| event_model(e)) =~= prev.push(
                    EventModel::EndArr,
                ));
                assert(events@.map_values(|e: JsonStreamEvent| event_model(e)) =~= before + (seq![
                    EventModel::StartArr(arr_model(items@).len() as int),
                ] + events_of_items(arr_model(items@)) + seq![EventModel::EndArr]));
            }
        },
        JsonValue::Object(entries) => {
            proof {
                lemma_obj_model(entries@);
            }
            events.push(JsonStreamEvent::StartObject);
            proof {
                assert(events@.map_values(|e: JsonStreamEvent| event_model(e)) =~= before + seq![
                    EventModel::StartObj,
                ]);
                assert(obj_model(entries@).take(0) =~= Seq::<(Seq<char>, ValueModel)>::empty());
            }
            let mut i: usize = 0;
            while i < entries.len()
                invariant
                    0 <= i <= entries@.len(),
                    events@.map_values(|e: JsonStreamEvent| event_model(e)) == before + seq![
                        EventModel::StartObj,
                    ] + events_of_entries(obj_model(entries@).take(i as int)),
                decreases entries.len() - i,
            {
                proof {
                    assert(decreases_to!(*value => *entries));
                    assert(decreases_to!(entries@ => entries@[i as int]));
                    assert(decreases_to!(entries@[i as int] => entries@[i as int].1));
                    assert(obj_model(entries@)[i as int] == (entries@[i as int].0@, value_model(
                        entries@[i as int].1,
                    )));
                }
                let key = entries[i].0.clone();
                let key_chars = chars_of(key.as_str());
                let was_quoted = !chars_valid_unquoted_key(&key_chars);
                let ghost mid = events@.map_values(|e: JsonStreamEvent| event_model(e));
                events.push(JsonStreamEvent::Key { key, was_quoted });
                proof {
                    assert(events@.map_values(|e: JsonStreamEvent| event_model(e)) =~= mid + seq![
                        EventModel::Key(
                            obj_model(entries@)[i as int].0,
                            !is_unquoted_key(obj_model(entries@)[i as int].0),
                        ),
                    ]);
                }
                emit_events(&entries[i].1, events);
                i += 1;
                proof {
                    assert(obj_model(entries@).take(i as int) =~= obj_model(entries@).take(
                        i - 1,
                    ).push(obj_model(entries@)[i - 1]));
                    lemma_events_entries_snoc(
                        obj_model(entries@).take(i - 1),
                        obj_model(entries@)[i - 1],
                    );
                    assert(((before + seq![EventModel::StartObj] + events_of_entries(
                        obj_model(entries@).take(i - 1),
                    )) + seq![
                        EventModel::Key(
                            obj_model(entries@)[i - 1].0,
                            !is_unquoted_key(obj_model(entries@)[i - 1].0),
                        ),
                    ]) + events_of_value(obj_model(entries@)[i - 1].1) =~= before + seq![
                        EventModel::StartObj,
                    ] + events_of_entries(obj_model(entries@).take(i as int)));
                }
            }
            let ghost prev = events@.map_values(|e: JsonStreamEvent| event_model(e));
            events.push(JsonStreamEvent::EndObject);
            proof {
                assert(obj_model(entries@).take(obj_model(entries@).len() as int) =~= obj_model(
                    entries@,
                ));
                assert(events@.map_values(|e: JsonStreamEvent| event_model(e)) =~= prev.push(
                    EventModel::EndObj,
                ));
                assert(events@.map_values(|e: JsonStreamEvent| event_model(e)) =~= before + (seq![
                    EventModel::StartObj,
                ] + events_of_entries(obj_model(entries@)) + seq![EventModel::EndObj]));
            }
        },
    }
}

/// Encode a JSON value into the canonical event stream: exactly the
/// events of its normal form, in document order.
pub fn encode_stream_events(input: JsonValue, options: Option<EncodeOptions>) -> (r: Vec<
    JsonStreamEvent,
>)
    ensures
        r@.map_values(|e: JsonStreamEvent| event_model(e)) == events_of_value(
            norm_model(value_model(input)),
        ),
{
    let _resolved = resolve_encode_options(options);
    let normalized = normalize_json_value(input);
    let mut events: Vec<JsonStreamEvent> = Vec::new();
    proof {
        assert(events@.map_values(|e: JsonStreamEvent| event_model(e))
            =~= Seq::<EventModel>::empty());
    }
    emit_events(&normalized, &mut events);
    proof {
        assert(Seq::<EventModel>::empty() + events_of_value(value_model(normalized))
            =~= events_of_value(value_model(normalized)));
    }
    events
}

/// The delimiter that encoding with these options uses.
pub open spec fn enc_delimiter_of(options: Option<EncodeOptions>) -> char {
    match options {
        Option::Some(o) => if o.delimiter is Some {
            o.delimiter.unwrap()
        } else {
            ','
        },
        Option::None => ',',
    }
}

/// The indent width that encoding with these options uses.
pub open spec fn enc_indent_of(options: Option<EncodeOptions>) -> int {
    match options {
        Option::Some(o) => if o.indent is Some {
            o.indent.unwrap() as int
        } else {
            2
        },
        Option::None => 2,
    }
}

/// The exact lines of a flat object: one `key: value` line per entry.
pub open spec fn flat_object_lines(
    entries: Seq<(Seq<char>, ValueModel)>,
    indent: int,
    delimiter: char,
) -> Seq<Seq<char>> {
    Seq::new(
        entries.len(),
        |t: int| flat_entry_line(entries[t].0, entries[t].1->Prim_0, 0, indent, delimiter),
    )
}

/// Encode a JSON value as TOON lines: canonicalize numeric edge cases, then
/// write the most compact shape for every node.
pub fn encode_lines(input: JsonValue, options: Option<EncodeOptions>) -> (r: Vec<String>)
    ensures
        match norm_model(value_model(input)) {
            ValueModel::Prim(p) => {
                let enc = crate::primitives::encode_prim_spec(
                    p,
                    match options {
                        Option::Some(ref o) => if o.delimiter is Some {
                            o.delimiter.unwrap()
                        } else {
                            ','
                        },
                        Option::None => ',',
                    },
                );
                if enc.len() == 0 {
                    r@.len() == 0
                } else {
                    r@.len() == 1 && r@[0]@ == enc
                }
            },
            ValueModel::Arr(_) => r@.len() >= 1,
            ValueModel::Obj(es) => r@.len() >= es.len(),
        },
        (norm_model(value_model(input)) matches ValueModel::Obj(es) && all_prim_entries(es))
            ==> r@.map_values(|s: String| s@) == flat_object_lines(
            norm_model(value_model(input))->Obj_0,
            enc_indent_of(options),
            enc_delimiter_of(options),
        ),
{
    let resolved = resolve_encode_options(options);
    let normalized = normalize_json_value(input);
    let r = crate::encoders::encode_json_value(&normalized, &resolved);
    proof {
        let vm = value_model(normalized);
        if (vm matches ValueModel::Obj(_)) && all_prim_entries(vm->Obj_0) {
            assert(r@.map_values(|s: String| s@) =~= flat_object_lines(
                vm->Obj_0,
                enc_indent_of(options),
                enc_delimiter_of(options),
            ));
        }
    }
    r
}

/// The lines joined with newlines.
pub open spec fn join_lines(lines: Seq<Seq<char>>) -> Seq<char>
    decreases lines.len(),
{
    if lines.len() == 0 {
        Seq::empty()
    } else if lines.len() == 1 {
        lines[0]
    } else {
        join_lines(lines.drop_last()) + seq!['\n'] + lines.last()
    }
}

proof fn lemma_join_lines_snoc(lines: Seq<Seq<char>>, l: Seq<char>)
    ensures
        join_lines(lines.push(l)) == if lines.len() == 0 {
            l
        } else {
            join_lines(lines) + seq!['\n'] + l
        },
{
    assert(lines.push(l).last() == l);
    assert(lines.push(l).drop_last() =~= lines);
    if lines.len() == 0 {
        assert(lines.push(l).len() == 1);
        assert(lines.push(l)[0] == l);
    }
}

/// Join TOON lines with newlines: exactly the lines, a newline between
/// each pair.
pub fn join_toon_lines(lines: &Vec<String>) -> (r: String)
    ensures
        r@ == join_lines(lines@.map_values(|s: String| s@)),
{
    let ghost line_models = lines@.map_values(|s: String| s@);
    let mut out: Vec<char> = Vec::new();
    let mut i: usize = 0;
    proof {
        assert(line_models.take(0) =~= Seq::<Seq<char>>::empty());
        assert(out@ =~= join_lines(line_models.take(0)));
    }
    while i < lines.len()
        invariant
            0 <= i <= lines@.len(),
            line_models == lines@.map_values(|s: String| s@),
            out@ == join_lines(line_models.take(i as int)),
        decreases lines.len() - i,
    {
        let ghost before = out@;
        if i > 0 {
            out.push('\n');
        }
        let line_chars = chars_of(lines[i].as_str());
        let mut j: usize = 0;
        while j < line_chars.len()
            invariant
                0 <= j <= line_chars@.len(),
                line_chars@ == line_models[i as int],
                out@ == (if i == 0 {
                    before
                } else {
                    before + seq!['\n']
                }) + line_chars@.take(j as int),
                i < lines@.len(),
                line_models == lines@.map_values(|s: String| s@),
                before == join_lines(line_models.take(i as int)),
            decreases line_chars.len() - j,
        {
            out.push(line_chars[j]);
            j += 1;
            proof {
                assert(out@ =~= (if i == 0 {
                    before
                } else {
                    before + seq!['\n']
                }) + line_chars@.take(j as int));
            }
        }
        proof {
            assert(line_chars@.take(line_chars@.len() as int) =~= line_chars@);
            assert(line_models.take(i + 1) =~= line_models.take(i as int).push(
                line_models[i as int],
            ));
            lemma_join_lines_snoc(line_models.take(i as int), line_models[i as int]);
        }
        i += 1;
    }
    proof {
        assert(line_models.take(line_models.len() as int) =~= line_models);
    }
    crate::text::string_from_chars(out.as_slice())
}

/// Encode a JSON value as one TOON string: exactly the lines of
/// [`encode_lines`], joined with newlines. A primitive encodes as exactly
/// its token text.
pub fn encode(input: JsonValue, options: Option<EncodeOptions>) -> (r: String)
    ensures
        match norm_model(value_model(input)) {
            ValueModel::Prim(p) => {
                let enc = crate::primitives::encode_prim_spec(
                    p,
                    match options {
                        Option::Some(ref o) => if o.delimiter is Some {
                            o.delimiter.unwrap()
                        } else {
                            ','
                        },
                        Option::None => ',',
                    },
                );
                r@ == if enc.len() == 0 {
                    Seq::<char>::empty()
                } else {
                    enc
                }
            },
            _ => true,
        },
        (norm_model(value_model(input)) matches ValueModel::Obj(es) && all_prim_entries(es))
            ==> r@ == join_lines(
            flat_object_lines(
                norm_model(value_model(input))->Obj_0,
                enc_indent_of(options),
                enc_delimiter_of(options),
            ),
        ),
{
    let lines = encode_lines(input, options);
    let r = join_toon_lines(&lines);
    proof {
        let line_models = lines@.map_values(|s: String| s@);
        if line_models.len() == 1 {
            assert(join_lines(line_models) == line_models[0]);
        }
        if line_models.len() == 0 {
            assert(join_lines(line_models) =~= Seq::<char>::empty());
        }
    }
    r
}

} // verus!
