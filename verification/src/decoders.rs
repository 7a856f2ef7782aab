//! The decode engine: a cursor-driven recursive descent over scanned lines
//! that emits the canonical event sequence. The root is detected first, then
//! object bodies consume sibling lines at a fixed depth, and array bodies
//! branch three ways on their header: inline, tabular, or list.

use vstd::prelude::*;

verus! {

use crate::value::{JsonStreamEvent, StringOrNumberOrBoolOrNull, prim_model};
use crate::events::{EventModel, event_model, events_well_formed, build_spec,
    lemma_two_event_empty_object};
use crate::scanner::{ParsedLine, StreamingLineCursor, create_scan_state, parse_lines_sync,
    clone_parsed_line, line_blank, line_rejected, scan_lines_spec, parsed_line_model,
    ScannedLine};
use crate::parser::{ArrayHeaderInfo, ArrayHeaderParseResult, chars_array_header_line,
    chars_array_header_content, chars_key_token, chars_primitive_token, chars_delimited_values,
    map_row_values_to_primitives, primitive_token_spec, split_delim, header_spec, key_token_spec,
    HeaderOutcome, array_header_content};
use crate::validation::{assert_expected_count, validate_no_blank_lines_in_range,
    validate_no_extra_list_items, validate_no_extra_tabular_rows, is_list_item_start,
    starts_list_item};
use crate::error::{Result, ToonError};
use crate::options::DecodeStreamOptions;
use crate::text::{chars_of, trim_chars, subrange_chars, string_from_chars, trim_seq,
    find_unquoted_in_chars, find_unquoted_from};

/// The decode engine's configuration: indent width and strictness.
#[derive(Debug, Clone, Copy)]
pub struct DecoderContext {
    pub indent: usize,
    pub strict: bool,
}

/// The indent width this configuration scans with.
pub open spec fn stream_indent_of(options: Option<DecodeStreamOptions>) -> int {
    match options {
        Option::Some(o) => match o.indent {
            Option::Some(v) => v as int,
            Option::None => 2,
        },
        Option::None => 2,
    }
}

/// Is this configuration strict?
pub open spec fn stream_strict_of(options: Option<DecodeStreamOptions>) -> bool {
    match options {
        Option::Some(o) => match o.strict {
            Option::Some(b) => b,
            Option::None => true,
        },
        Option::None => true,
    }
}

/// Does the first content line carry a keyed inline array whose body the
/// decoder rejects: a malformed quoted piece, or a strict-mode count
/// mismatch? Such a document fails as a whole.
pub open spec fn first_line_inline_mismatch(scanned: Seq<ScannedLine>, strict: bool) -> bool {
    &&& scanned.len() >= 1
    &&& !array_header_content(scanned[0].content)
    &&& kv_line_spec(scanned[0].content)
    &&& (header_spec(scanned[0].content, ',') matches HeaderOutcome::Header {
        key: Some(_),
        length,
        delimiter,
        inline: Some(iv),
        ..
    } && inline_body_fails(iv, delimiter, strict, length))
}

/// Decode scanned TOON lines into a stream of JSON events.
///
/// Every successful result is a well-formed event sequence: one the event
/// builder accepts, with each start matched by its end, a key before every
/// value inside an object, and exactly one root. An input with no content
/// lines decodes to exactly one empty object: `StartObject` then
/// `EndObject`. A line that strict mode rejects — a tab in its indentation
/// or a misaligned indent — fails the whole decode, and a successful decode
/// certifies that no line was rejected.
///
/// Fails when scanning fails under strict mode, when a line is malformed, or
/// when a strict-mode count or blank-line rule is violated.
#[verifier::loop_isolation(false)]
pub fn decode_stream_sync(source: Vec<String>, options: Option<DecodeStreamOptions>) -> (r: Result<
    Vec<JsonStreamEvent>,
>)
    ensures
        match r {
            Result::Ok(events) => {
                &&& events@.len() >= 1
                &&& build_spec(events@.map_values(|e: JsonStreamEvent| event_model(e))) is Some
                &&& (events@[0] matches JsonStreamEvent::StartObject || events@[0] matches
                    JsonStreamEvent::StartArray { .. } || events@[0] matches
                    JsonStreamEvent::Primitive { .. })
                &&& forall|k: int|
                    0 <= k < source@.len() ==> !line_rejected(
                        (#[trigger] source@[k])@,
                        stream_indent_of(options),
                        stream_strict_of(options),
                    )
                &&& (forall|k: int| 0 <= k < source@.len() ==> line_blank(#[trigger] source@[k]@))
                    ==> events@.len() == 2 && events@[0] == JsonStreamEvent::StartObject
                    && events@[1] == JsonStreamEvent::EndObject
                &&& ({
                    let scanned = scan_lines_spec(
                        source@.map_values(|s: String| s@),
                        stream_indent_of(options),
                        1,
                    );
                    (scanned.len() == 1 && !kv_line_spec(scanned[0].content) && !(
                    array_header_content(scanned[0].content) && header_spec(
                        scanned[0].content,
                        ',',
                    ) matches HeaderOutcome::Header { .. })) ==> events@.len() == 1
                        && event_model(events@[0]) == EventModel::Prim(
                        primitive_token_spec(scanned[0].content).unwrap(),
                    )
                })
            },
            Result::Err(_) => !(forall|k: int|
                0 <= k < source@.len() ==> line_blank(#[trigger] source@[k]@)),
        },
        (exists|k: int|
            0 <= k < source@.len() && line_rejected(
                (#[trigger] source@[k])@,
                stream_indent_of(options),
                stream_strict_of(options),
            )) ==> r is Err,
        first_line_inline_mismatch(
            scan_lines_spec(source@.map_values(|s: String| s@), stream_indent_of(options), 1),
            stream_strict_of(options),
        ) ==> r is Err,
{
    let context = match options {
        Option::Some(o) => DecoderContext {
            indent: match o.indent {
                Option::Some(v) => v,
                Option::None => 2,
            },
            strict: match o.strict {
                Option::Some(v) => v,
                Option::None => true,
            },
        },
        Option::None => DecoderContext { indent: 2, strict: true },
    };

    let mut scan_state = create_scan_state();
    let n_lines = source.len();
    proof {
        assert(n_lines == source@.len());
    }
    let ghost source_view = source@;
    let lines = match parse_lines_sync(source, context.indent, context.strict, &mut scan_state) {
        Result::Ok(lines) => lines,
        Result::Err(e) => {
            return Err(e);
        },
    };
    proof {
        if forall|k: int| 0 <= k < source_view.len() ==> line_blank(#[trigger] source_view[k]@) {
            assert(lines@.len() == 0);
        }
    }
    let ghost scanned = scan_lines_spec(
        source_view.map_values(|s: String| s@),
        context.indent as int,
        1,
    );
    proof {
        assert(lines@.map_values(|l: ParsedLine| parsed_line_model(l)) == scanned);
        assert(scanned.len() == lines@.len());
    }
    let mut cursor = StreamingLineCursor::new(lines, scan_state.blank_lines);
    let ghost lines0 = cursor.lines();

    let mut events: Vec<JsonStreamEvent> = Vec::new();

    let first: ParsedLine;
    match cursor.peek_sync() {
        Option::None => {
            events.push(JsonStreamEvent::StartObject);
            events.push(JsonStreamEvent::EndObject);
            proof {
                let evs = events@.map_values(|e: JsonStreamEvent| event_model(e));
                assert(evs.len() == 2 && evs[0] == EventModel::StartObj && evs[1]
                    == EventModel::EndObj);
                lemma_two_event_empty_object(evs);
            }
            return Ok(events);
        },
        Option::Some(l) => {
            first = clone_parsed_line(l);
        },
    }

    let first_content = chars_of(first.content.as_str());
    if chars_array_header_content(&first_content) {
        match chars_array_header_line(&first_content, ',') {
            Result::Ok(Option::Some(header_info)) => {
                cursor.advance_sync();
                match decode_array_from_header_sync(
                    &mut events,
                    header_info,
                    &mut cursor,
                    0,
                    context,
                ) {
                    Result::Ok(_) => {
                        proof {
                            if scanned.len() == 1 {
                                assert(scanned[0] == parsed_line_model(lines0[0]));
                                assert(scanned[0].content == first.content@);
                            }
                        }
                        if !events_well_formed(&events) {
                            return Err(
                                ToonError::event_stream(
                                    "Decoder produced a malformed event stream",
                                ),
                            );
                        }
                        return Ok(events);
                    },
                    Result::Err(e) => {
                        return Err(e);
                    },
                }
            },
            Result::Ok(Option::None) => {},
            Result::Err(e) => {
                return Err(e);
            },
        }
    }

    cursor.advance_sync();
    let has_more = !cursor.at_end_sync();
    if !has_more && !is_key_value_line(&first) {
        let trimmed = trim_chars(&first_content);
        match chars_primitive_token(&trimmed) {
            Result::Ok(value) => {
                events.push(JsonStreamEvent::Primitive { value });
                proof {
                    crate::text::lemma_trim_idempotent(first.content@);
                    assert(scanned[0] == parsed_line_model(lines0[0]));
                    assert(scanned[0].content == first.content@);
                    assert(event_model(events@[0]) == EventModel::Prim(
                        primitive_token_spec(scanned[0].content).unwrap(),
                    ));
                }
                if !events_well_formed(&events) {
                    return Err(
                        ToonError::event_stream("Decoder produced a malformed event stream"),
                    );
                }
                return Ok(events);
            },
            Result::Err(e) => {
                return Err(e);
            },
        }
    }

    events.push(JsonStreamEvent::StartObject);
    let ghost root_event = events@[0];
    match decode_key_value_sync(&mut events, first.content.as_str(), &mut cursor, 0, context) {
        Result::Ok(_) => {},
        Result::Err(e) => {
            return Err(e);
        },
    }
    proof {
        assert(events@[0] == events@.take(1)[0]);
    }

    proof {
        assert(exists|k: int|
            0 <= k < source_view.len() && !line_blank(#[trigger] source_view[k]@));
    }
    loop
        invariant
            cursor.wf(),
            events@.len() >= 1,
            events@[0] == root_event,
            exists|k: int|
                0 <= k < source_view.len() && !line_blank(#[trigger] source_view[k]@),
        decreases cursor.lines().len() - cursor.index(),
    {
        let line: ParsedLine;
        match cursor.peek_sync() {
            Option::None => {
                break ;
            },
            Option::Some(l) => {
                line = clone_parsed_line(l);
            },
        }
        if line.depth != 0 {
            break ;
        }
        cursor.advance_sync();
        let ghost n_mid = events@.len();
        match decode_key_value_sync(&mut events, line.content.as_str(), &mut cursor, 0, context) {
            Result::Ok(_) => {},
            Result::Err(e) => {
                return Err(e);
            },
        }
        proof {
            assert(events@[0] == events@.take(n_mid as int)[0]);
        }
    }

    events.push(JsonStreamEvent::EndObject);
    proof {
        assert(events@[0] == events@.drop_last()[0]);
        if scanned.len() == 1 {
            assert(scanned[0] == parsed_line_model(lines0[0]));
            assert(scanned[0].content == first.content@);
        }
    }
    if !events_well_formed(&events) {
        return Err(ToonError::event_stream("Decoder produced a malformed event stream"));
    }
    Ok(events)
}

/// Does the line read as `key: value`: a colon somewhere, looking past a
/// leading quoted key?
pub open spec fn kv_line_spec(s: Seq<char>) -> bool {
    if s.len() > 0 && s[0] == '"' {
        match crate::text::closing_quote_from(s, 1) {
            Option::Some(j) => crate::text::find_char_from(s, ':', j + 1) is Some,
            Option::None => false,
        }
    } else {
        s.contains(':')
    }
}

/// Executable form of [`kv_line_spec`].
fn is_key_value_line(line: &ParsedLine) -> (r: bool)
    ensures
        r == kv_line_spec(line.content@),
{
    let cs = chars_of(line.content.as_str());
    if cs.len() > 0 && cs[0] == '"' {
        match crate::text::closing_quote_in_chars(&cs, 0) {
            Option::Some(closing) => {
                match crate::text::find_char(&cs, ':', closing + 1) {
                    Option::Some(_) => true,
                    Option::None => false,
                }
            },
            Option::None => false,
        }
    } else {
        crate::text::contains_char(&cs, ':')
    }
}

/// Decode one `key: ...` line: emit its key, then its value, consuming any
/// deeper lines that belong to it. On success the first emitted event is
/// exactly the entry's key — the header's key when the line is a keyed
/// array header, the parsed key token otherwise — followed by at least one
/// value event.
fn decode_key_value_sync(
    events: &mut Vec<JsonStreamEvent>,
    content: &str,
    cursor: &mut StreamingLineCursor,
    base_depth: usize,
    options: DecoderContext,
) -> (r: Result<()>)
    requires
        old(cursor).wf(),
    ensures
        final(cursor).wf(),
        final(cursor).lines() == old(cursor).lines(),
        final(cursor).blanks() == old(cursor).blanks(),
        final(cursor).index() >= old(cursor).index(),
        final(events)@.len() >= old(events)@.len(),
        final(events)@.take(old(events)@.len() as int) == old(events)@,
        r is Ok ==> final(events)@.len() >= old(events)@.len() + 2,
        r is Ok ==> ({
            let n = old(events)@.len() as int;
            match header_spec(content@, ',') {
                HeaderOutcome::Header { key: k, .. } => match k {
                    Option::Some(hk) => event_model(final(events)@[n]) == EventModel::Key(
                        hk,
                        false,
                    ),
                    Option::None => key_token_spec(content@, 0) matches Some(kt) && event_model(
                        final(events)@[n],
                    ) == EventModel::Key(kt.0, kt.2),
                },
                HeaderOutcome::NotHeader => key_token_spec(content@, 0) matches Some(kt)
                    && event_model(final(events)@[n]) == EventModel::Key(kt.0, kt.2),
                HeaderOutcome::BadString => false,
            }
        }),
        (header_spec(content@, ',') matches HeaderOutcome::Header {
            key: Some(_),
            length,
            delimiter,
            inline: Some(iv),
            ..
        } && inline_body_fails(iv, delimiter, options.strict, length)) ==> r is Err,
        r is Ok ==> ({
            let n = old(events)@.len() as int;
            header_spec(content@, ',') matches HeaderOutcome::Header {
                key: Some(hk),
                length,
                delimiter,
                inline: Some(iv),
                ..
            } ==> ({
                let pieces = inline_pieces(iv, delimiter);
                &&& final(events)@.len() == n + 3 + pieces.len()
                &&& event_model(final(events)@[n]) == EventModel::Key(hk, false)
                &&& final(events)@[n + 1] == (JsonStreamEvent::StartArray {
                    length: length as usize,
                })
                &&& (forall|j: int|
                    0 <= j < pieces.len() ==> event_model(#[trigger] final(events)@[n + 2 + j])
                        == EventModel::Prim(primitive_token_spec(pieces[j]).unwrap()))
                &&& final(events)@.last() == JsonStreamEvent::EndArray
            })
        }),
    decreases cursor.lines().len() - cursor.index(), 4int,
{
    let ghost n0 = events@.len();
    let cs = chars_of(content);
    match chars_array_header_line(&cs, ',') {
        Result::Ok(Option::Some(header_info)) => {
            match &header_info.header.key {
                Option::Some(key) => {
                    events.push(
                        JsonStreamEvent::Key { key: key.clone(), was_quoted: false },
                    );
                    let ghost key_event = events@[n0 as int];
                    proof {
                        assert(events@.take(n0 as int) =~= old(events)@);
                    }
                    let r = decode_array_from_header_sync(
                        events,
                        header_info,
                        cursor,
                        base_depth,
                        options,
                    );
                    proof {
                        assert(events@[n0 as int] == events@.take(n0 as int + 1)[n0 as int]);
                        assert(events@[n0 as int] == key_event);
                    }
                    return r;
                },
                Option::None => {},
            }
        },
        Result::Ok(Option::None) => {},
        Result::Err(e) => {
            return Err(e);
        },
    }

    let key: String;
    let end: usize;
    let is_quoted: bool;
    match chars_key_token(&cs, 0) {
        Result::Ok(ke) => {
            key = ke.0;
            end = ke.1;
            is_quoted = ke.2;
        },
        Result::Err(e) => {
            return Err(e);
        },
    }
    let rest_raw = subrange_chars(&cs, end, cs.len());
    let rest = trim_chars(&rest_raw);

    events.push(JsonStreamEvent::Key { key, was_quoted: is_quoted });
    let ghost key_event = events@[n0 as int];
    proof {
        assert(events@.take(n0 as int) =~= old(events)@);
    }
    let ghost n1 = events@.len();

    if rest.len() == 0 {
        let mut nested = false;
        match cursor.peek_sync() {
            Option::Some(next) => {
                if next.depth > base_depth {
                    nested = true;
                }
            },
            Option::None => {},
        }
        if nested {
            events.push(JsonStreamEvent::StartObject);
            proof {
                assert(events@.take(n0 as int) =~= old(events)@);
            }
            let ghost n2 = events@.len();
            match decode_object_fields_sync(events, cursor, base_depth + 1, options) {
                Result::Ok(_) => {},
                Result::Err(e) => {
                    return Err(e);
                },
            }
            proof {
                assert(events@.take(n0 as int) =~= events@.take(n2 as int).take(n0 as int));
                assert(events@[n0 as int] == events@.take(n2 as int)[n0 as int]);
            }
            events.push(JsonStreamEvent::EndObject);
            proof {
                assert(events@.take(n0 as int) =~= old(events)@);
                assert(events@[n0 as int] == events@.drop_last()[n0 as int]);
                assert(events@[n0 as int] == key_event);
            }
            return Ok(());
        }
        events.push(JsonStreamEvent::StartObject);
        events.push(JsonStreamEvent::EndObject);
        proof {
            assert(events@.take(n0 as int) =~= old(events)@);
            assert(events@[n0 as int] == key_event);
        }
        return Ok(());
    }

    match chars_primitive_token(&rest) {
        Result::Ok(value) => {
            events.push(JsonStreamEvent::Primitive { value });
            proof {
                assert(events@.take(n0 as int) =~= old(events)@);
                assert(events@[n0 as int] == key_event);
            }
            Ok(())
        },
        Result::Err(e) => Err(e),
    }
}

/// Decode the fields of a nested object: consume sibling lines at the depth
/// the first of them sets, until the block dedents. At the end of input, or
/// when the next line already sits shallower, nothing is consumed or
/// emitted.
fn decode_object_fields_sync(
    events: &mut Vec<JsonStreamEvent>,
    cursor: &mut StreamingLineCursor,
    base_depth: usize,
    options: DecoderContext,
) -> (r: Result<()>)
    requires
        old(cursor).wf(),
    ensures
        final(cursor).wf(),
        final(cursor).lines() == old(cursor).lines(),
        final(cursor).blanks() == old(cursor).blanks(),
        final(cursor).index() >= old(cursor).index(),
        final(events)@.len() >= old(events)@.len(),
        final(events)@.take(old(events)@.len() as int) == old(events)@,
        old(cursor).index() == old(cursor).lines().len() ==> r is Ok && final(cursor).index()
            == old(cursor).index() && final(events)@ == old(events)@,
        (old(cursor).index() < old(cursor).lines().len() && old(cursor).lines()[old(
            cursor,
        ).index()].depth < base_depth) ==> r is Ok && final(cursor).index() == old(
            cursor,
        ).index() && final(events)@ == old(events)@,
    decreases cursor.lines().len() - cursor.index(), 3int,
{
    let ghost n0 = events@.len();
    let mut computed_depth: Option<usize> = None;

    loop
        invariant
            cursor.wf(),
            cursor.lines() == old(cursor).lines(),
            cursor.blanks() == old(cursor).blanks(),
            cursor.index() >= old(cursor).index(),
            events@.len() >= n0,
            events@.take(n0 as int) == old(events)@,
            (old(cursor).index() == old(cursor).lines().len() || (old(cursor).index() < old(
                cursor,
            ).lines().len() && old(cursor).lines()[old(cursor).index()].depth < base_depth))
                ==> cursor.index() == old(cursor).index() && events@ == old(events)@,
        decreases cursor.lines().len() - cursor.index(),
    {
        if cursor.at_end_sync() {
            break ;
        }
        let line: ParsedLine;
        match cursor.peek_sync() {
            Option::None => {
                break ;
            },
            Option::Some(l) => {
                line = clone_parsed_line(l);
            },
        }
        if line.depth < base_depth {
            break ;
        }

        let depth_matches: bool;
        match computed_depth {
            Option::None => {
                computed_depth = Some(line.depth);
                depth_matches = true;
            },
            Option::Some(d) => {
                depth_matches = d == line.depth;
            },
        }

        if depth_matches {
            cursor.advance_sync();
            let ghost n_mid = events@.len();
            match decode_key_value_sync(
                events,
                line.content.as_str(),
                cursor,
                line.depth,
                options,
            ) {
                Result::Ok(_) => {},
                Result::Err(e) => {
                    return Err(e);
                },
            }
            proof {
                assert(events@.take(n0 as int) =~= events@.take(n_mid as int).take(n0 as int));
            }
        } else {
            break ;
        }
    }

    Ok(())
}

/// Decode an array once its header is read: emit `StartArray` with the
/// declared length, then the inline, tabular, or list body the header
/// calls for, then `EndArray`. An inline body's events are exactly one
/// primitive per delimiter-separated piece, in order.
fn decode_array_from_header_sync(
    events: &mut Vec<JsonStreamEvent>,
    header_info: ArrayHeaderParseResult,
    cursor: &mut StreamingLineCursor,
    base_depth: usize,
    options: DecoderContext,
) -> (r: Result<()>)
    requires
        old(cursor).wf(),
    ensures
        final(cursor).wf(),
        final(cursor).lines() == old(cursor).lines(),
        final(cursor).blanks() == old(cursor).blanks(),
        final(cursor).index() >= old(cursor).index(),
        final(events)@.len() >= old(events)@.len(),
        final(events)@.take(old(events)@.len() as int) == old(events)@,
        r is Ok ==> final(events)@.len() >= old(events)@.len() + 2,
        r is Ok ==> final(events)@[old(events)@.len() as int] == (JsonStreamEvent::StartArray {
            length: header_info.header.length,
        }) && final(events)@.last() == JsonStreamEvent::EndArray,
        r is Ok ==> ({
            let n = old(events)@.len() as int;
            match header_info.inline_values {
                Option::Some(iv) => {
                    let pieces = if trim_seq(iv@).len() == 0 {
                        Seq::<Seq<char>>::empty()
                    } else {
                        split_delim(iv@, header_info.header.delimiter)
                    };
                    &&& final(events)@.len() == n + 2 + pieces.len()
                    &&& (forall|j: int|
                        0 <= j < pieces.len() ==> event_model(#[trigger] final(events)@[n + 1 + j])
                            == EventModel::Prim(primitive_token_spec(pieces[j]).unwrap()))
                    &&& (options.strict ==> pieces.len() == header_info.header.length)
                },
                Option::None => true,
            }
        }),
        (header_info.inline_values matches Some(iv) && inline_body_fails(
            iv@,
            header_info.header.delimiter,
            options.strict,
            header_info.header.length as int,
        )) ==> r is Err,
    decreases cursor.lines().len() - cursor.index(), 2int,
{
    let ghost n0 = events@.len();
    let ArrayHeaderParseResult { header, inline_values } = header_info;

    events.push(JsonStreamEvent::StartArray { length: header.length });
    proof {
        assert(events@.take(n0 as int) =~= old(events)@);
    }
    let ghost n1 = events@.len();

    let ghost start_event = events@[n0 as int];
    match inline_values {
        Option::Some(inline) => {
            match decode_inline_primitive_array_sync(events, &header, inline.as_str(), options) {
                Result::Ok(_) => {},
                Result::Err(e) => {
                    return Err(e);
                },
            }
            proof {
                assert(events@.take(n0 as int) =~= events@.take(n1 as int).take(n0 as int));
                assert(events@[n0 as int] == events@.take(n1 as int)[n0 as int]);
            }
            events.push(JsonStreamEvent::EndArray);
            proof {
                assert(events@.take(n0 as int) =~= old(events)@);
                assert(events@[n0 as int] == events@.drop_last()[n0 as int]);
                assert(events@[n0 as int] == start_event);
                assert(forall|j: int|
                    n1 <= j < events@.len() - 1 ==> #[trigger] events@[j] == events@.drop_last()[
                        j
                    ]);
            }
            return Ok(());
        },
        Option::None => {},
    }

    let mut tabular = false;
    match &header.fields {
        Option::Some(fields) => {
            if fields.len() > 0 {
                tabular = true;
            }
        },
        Option::None => {},
    }
    if tabular {
        match decode_tabular_array_sync(events, &header, cursor, base_depth, options) {
            Result::Ok(_) => {},
            Result::Err(e) => {
                return Err(e);
            },
        }
        proof {
            assert(events@.take(n0 as int) =~= events@.take(n1 as int).take(n0 as int));
            assert(events@[n0 as int] == events@.take(n1 as int)[n0 as int]);
        }
        events.push(JsonStreamEvent::EndArray);
        proof {
            assert(events@.take(n0 as int) =~= old(events)@);
            assert(events@[n0 as int] == events@.drop_last()[n0 as int]);
            assert(events@[n0 as int] == start_event);
        }
        return Ok(());
    }

    match decode_list_array_sync(events, &header, cursor, base_depth, options) {
        Result::Ok(_) => {},
        Result::Err(e) => {
            return Err(e);
        },
    }
    proof {
        assert(events@.take(n0 as int) =~= events@.take(n1 as int).take(n0 as int));
        assert(events@[n0 as int] == events@.take(n1 as int)[n0 as int]);
    }
    events.push(JsonStreamEvent::EndArray);
    proof {
        assert(events@.take(n0 as int) =~= old(events)@);
        assert(events@[n0 as int] == events@.drop_last()[n0 as int]);
        assert(events@[n0 as int] == start_event);
    }
    Ok(())
}

/// The delimiter-separated pieces of an inline array body: none when the
/// body is blank.
pub open spec fn inline_pieces(s: Seq<char>, delimiter: char) -> Seq<Seq<char>> {
    if trim_seq(s).len() == 0 {
        Seq::empty()
    } else {
        split_delim(s, delimiter)
    }
}

/// Does decoding an inline body fail: a malformed quoted piece, or a
/// strict-mode count mismatch?
pub open spec fn inline_body_fails(
    s: Seq<char>,
    delimiter: char,
    strict: bool,
    length: int,
) -> bool {
    ||| exists|j: int|
        0 <= j < inline_pieces(s, delimiter).len() && primitive_token_spec(
            #[trigger] inline_pieces(s, delimiter)[j],
        ) is None
    ||| (strict && inline_pieces(s, delimiter).len() != length)
}

/// Decode the inline body of a primitive array: split the text after the
/// colon at the array's delimiter and emit one primitive per piece.
///
/// Fails exactly when a piece is a malformed quoted string, or strict mode
/// is on and the piece count differs from the declared length.
fn decode_inline_primitive_array_sync(
    events: &mut Vec<JsonStreamEvent>,
    header: &ArrayHeaderInfo,
    inline_values: &str,
    options: DecoderContext,
) -> (r: Result<()>)
    ensures
        final(events)@.len() >= old(events)@.len(),
        final(events)@.take(old(events)@.len() as int) == old(events)@,
        r is Err <==> inline_body_fails(
            inline_values@,
            header.delimiter,
            options.strict,
            header.length as int,
        ),
        r is Ok ==> ({
            let pieces = inline_pieces(inline_values@, header.delimiter);
            &&& final(events)@.len() == old(events)@.len() + pieces.len()
            &&& (forall|j: int|
                0 <= j < pieces.len() ==> event_model(
                    #[trigger] final(events)@[old(events)@.len() + j],
                ) == EventModel::Prim(primitive_token_spec(pieces[j]).unwrap()))
            &&& (options.strict ==> pieces.len() == header.length)
        }),
{
    let ghost n0 = events@.len();
    let cs = chars_of(inline_values);
    let trimmed = trim_chars(&cs);
    if trimmed.len() == 0 {
        proof {
            assert(inline_pieces(inline_values@, header.delimiter)
                =~= Seq::<Seq<char>>::empty());
        }
        match assert_expected_count(0, header.length, "inline array items", options.strict) {
            Result::Ok(_) => {
                proof {
                    assert(!inline_body_fails(
                        inline_values@,
                        header.delimiter,
                        options.strict,
                        header.length as int,
                    ));
                }
                return Ok(());
            },
            Result::Err(e) => {
                proof {
                    assert(inline_body_fails(
                        inline_values@,
                        header.delimiter,
                        options.strict,
                        header.length as int,
                    ));
                }
                return Err(e);
            },
        }
    }

    let values = chars_delimited_values(&cs, header.delimiter);
    let ghost pieces = split_delim(inline_values@, header.delimiter);
    proof {
        assert(pieces.len() == values@.len());
        assert(forall|j: int|
            0 <= j < values@.len() ==> (#[trigger] values@[j])@ == pieces[j]);
    }
    let primitives = match map_row_values_to_primitives(&values) {
        Result::Ok(ps) => ps,
        Result::Err(e) => {
            proof {
                assert(inline_pieces(inline_values@, header.delimiter) == pieces);
                assert(exists|j: int|
                    0 <= j < inline_pieces(inline_values@, header.delimiter).len()
                        && primitive_token_spec(
                        #[trigger] inline_pieces(inline_values@, header.delimiter)[j],
                    ) is None) by {
                    let j = choose|i: int|
                        0 <= i < values@.len() && primitive_token_spec(
                            #[trigger] values@[i]@,
                        ) is None;
                    assert(values@[j]@ == pieces[j]);
                    assert(primitive_token_spec(
                        inline_pieces(inline_values@, header.delimiter)[j],
                    ) is None);
                }
                assert(inline_body_fails(
                    inline_values@,
                    header.delimiter,
                    options.strict,
                    header.length as int,
                ));
            }
            return Err(e);
        },
    };
    proof {
        assert forall|j: int| 0 <= j < pieces.len() implies !(primitive_token_spec(
            #[trigger] pieces[j],
        ) is None) by {
            assert(primitive_token_spec(values@[j]@) == Some(crate::value::prim_model(
                primitives@[j],
            )));
        }
    }

    match assert_expected_count(
        primitives.len(),
        header.length,
        "inline array items",
        options.strict,
    ) {
        Result::Ok(_) => {},
        Result::Err(e) => {
            proof {
                assert(inline_pieces(inline_values@, header.delimiter) == pieces);
                assert(inline_body_fails(
                    inline_values@,
                    header.delimiter,
                    options.strict,
                    header.length as int,
                ));
            }
            return Err(e);
        },
    }
    proof {
        assert(inline_pieces(inline_values@, header.delimiter) == pieces);
        assert forall|j: int|
            0 <= j < inline_pieces(inline_values@, header.delimiter).len() implies !(
        primitive_token_spec(
            #[trigger] inline_pieces(inline_values@, header.delimiter)[j],
        ) is None) by {
            assert(primitive_token_spec(pieces[j]) == Some(crate::value::prim_model(
                primitives@[j],
            )));
        }
        assert(!inline_body_fails(
            inline_values@,
            header.delimiter,
            options.strict,
            header.length as int,
        ));
    }

    let mut i: usize = 0;
    while i < primitives.len()
        invariant
            0 <= i <= primitives@.len(),
            primitives@.len() == pieces.len(),
            forall|j: int|
                0 <= j < primitives@.len() ==> primitive_token_spec(pieces[j]) == Some(
                    prim_model(#[trigger] primitives@[j]),
                ),
            events@.len() == n0 + i,
            events@.take(n0 as int) == old(events)@,
            forall|j: int|
                0 <= j < i ==> event_model(#[trigger] events@[n0 + j]) == EventModel::Prim(
                    primitive_token_spec(pieces[j]).unwrap(),
                ),
        decreases primitives.len() - i,
    {
        let p = crate::value::clone_primitive(&primitives[i]);
        events.push(JsonStreamEvent::Primitive { value: p });
        i += 1;
        proof {
            assert(events@.take(n0 as int) =~= events@.drop_last().take(n0 as int));
        }
    }

    Ok(())
}

/// Decode the rows of a tabular array: each following line at the row depth
/// is split at the delimiter and rewritten as an object over the header's
/// fields — one full object's worth of events per consumed line. Strict
/// mode checks the row count, each row's width, interior blank lines, and
/// extra rows, so strict success consumes exactly the declared count.
fn decode_tabular_array_sync(
    events: &mut Vec<JsonStreamEvent>,
    header: &ArrayHeaderInfo,
    cursor: &mut StreamingLineCursor,
    base_depth: usize,
    options: DecoderContext,
) -> (r: Result<()>)
    requires
        old(cursor).wf(),
    ensures
        final(cursor).wf(),
        final(cursor).lines() == old(cursor).lines(),
        final(cursor).blanks() == old(cursor).blanks(),
        final(cursor).index() >= old(cursor).index(),
        final(events)@.len() >= old(events)@.len(),
        final(events)@.take(old(events)@.len() as int) == old(events)@,
        r is Ok && options.strict ==> final(cursor).index() == old(cursor).index()
            + header.length,
        r is Ok && options.strict ==> (header.fields matches Some(fs) ==> final(events)@.len()
            == old(events)@.len() + header.length * (2 + 2 * fs@.len())),
        r is Ok ==> (header.fields matches Some(fs) ==> final(events)@.len() - old(
            events,
        )@.len() == (2 + 2 * fs@.len()) * (final(cursor).index() - old(cursor).index())),
    decreases cursor.lines().len() - cursor.index(), 1int,
{
    let ghost n0 = events@.len();
    if base_depth == usize::MAX {
        return Err(ToonError::message("Nesting too deep"));
    }
    let row_depth = base_depth + 1;
    let mut row_count: usize = 0;
    let mut start_line: Option<usize> = None;
    let mut end_line: Option<usize> = None;

    loop
        invariant
            cursor.wf(),
            cursor.lines() == old(cursor).lines(),
            cursor.blanks() == old(cursor).blanks(),
            cursor.index() >= old(cursor).index(),
            events@.len() >= n0,
            events@.take(n0 as int) == old(events)@,
            row_count <= header.length,
            cursor.index() == old(cursor).index() + row_count,
            header.fields matches Some(fs) ==> events@.len() == n0 + row_count * (2 + 2
                * fs@.len()),
        decreases cursor.lines().len() - cursor.index(),
    {
        if cursor.at_end_sync() || row_count >= header.length {
            break ;
        }
        let line: ParsedLine;
        match cursor.peek_sync() {
            Option::None => {
                break ;
            },
            Option::Some(l) => {
                line = clone_parsed_line(l);
            },
        }
        if line.depth < row_depth {
            break ;
        }

        if line.depth == row_depth {
            if start_line.is_none() {
                start_line = Some(line.line_number);
            }
            end_line = Some(line.line_number);

            cursor.advance_sync();
            let content_chars = chars_of(line.content.as_str());
            let values = chars_delimited_values(&content_chars, header.delimiter);
            let fields = match &header.fields {
                Option::Some(fields) => fields,
                Option::None => {
                    return Err(ToonError::message("Tabular array is missing header fields"));
                },
            };
            match assert_expected_count(
                values.len(),
                fields.len(),
                "tabular row values",
                options.strict,
            ) {
                Result::Ok(_) => {},
                Result::Err(e) => {
                    return Err(e);
                },
            }

            let primitives = match map_row_values_to_primitives(&values) {
                Result::Ok(ps) => ps,
                Result::Err(e) => {
                    return Err(e);
                },
            };
            let ghost n_mid = events@.len();
            yield_object_from_fields(events, fields, &primitives);
            proof {
                assert(events@.take(n0 as int) =~= events@.take(n_mid as int).take(n0 as int));
            }

            row_count += 1;
            proof {
                let flen = fields@.len() as int;
                assert(row_count * (2 + 2 * flen) == (row_count - 1) * (2 + 2 * flen) + (2 + 2
                    * flen)) by (nonlinear_arith);
            }
        } else {
            break ;
        }
    }

    match assert_expected_count(row_count, header.length, "tabular rows", options.strict) {
        Result::Ok(_) => {},
        Result::Err(e) => {
            return Err(e);
        },
    }

    if options.strict {
        match (start_line, end_line) {
            (Option::Some(start), Option::Some(end)) => {
                match validate_no_blank_lines_in_range(
                    start,
                    end,
                    cursor.get_blank_lines(),
                    options.strict,
                    "tabular array",
                ) {
                    Result::Ok(_) => {},
                    Result::Err(e) => {
                        return Err(e);
                    },
                }
            },
            _ => {},
        }
    }

    match validate_no_extra_tabular_rows(cursor.peek_sync(), row_depth, header, options.strict) {
        Result::Ok(_) => {},
        Result::Err(e) => {
            return Err(e);
        },
    }
    proof {
        match &header.fields {
            Option::Some(fs) => {
                let k = 2 + 2 * fs@.len() as int;
                let adv = cursor.index() - old(cursor).index();
                assert(k * adv == (row_count as int) * k) by (nonlinear_arith)
                    requires
                        adv == row_count as int,
                ;
            },
            Option::None => {},
        }
    }
    Ok(())
}

/// Decode the items of a list array: each following line at the item depth
/// must open with the list-item marker. Strict mode checks the item count,
/// interior blank lines, and extra items, so strict success consumes at
/// least one line and emits at least one event per declared item.
fn decode_list_array_sync(
    events: &mut Vec<JsonStreamEvent>,
    header: &ArrayHeaderInfo,
    cursor: &mut StreamingLineCursor,
    base_depth: usize,
    options: DecoderContext,
) -> (r: Result<()>)
    requires
        old(cursor).wf(),
    ensures
        final(cursor).wf(),
        final(cursor).lines() == old(cursor).lines(),
        final(cursor).blanks() == old(cursor).blanks(),
        final(cursor).index() >= old(cursor).index(),
        final(events)@.len() >= old(events)@.len(),
        final(events)@.take(old(events)@.len() as int) == old(events)@,
        r is Ok && options.strict ==> final(cursor).index() >= old(cursor).index()
            + header.length && final(events)@.len() >= old(events)@.len() + header.length,
    decreases cursor.lines().len() - cursor.index(), 1int,
{
    let ghost n0 = events@.len();
    if base_depth == usize::MAX {
        return Err(ToonError::message("Nesting too deep"));
    }
    let item_depth = base_depth + 1;
    let mut item_count: usize = 0;
    let mut start_line: Option<usize> = None;
    let mut end_line: Option<usize> = None;

    loop
        invariant
            cursor.wf(),
            cursor.lines() == old(cursor).lines(),
            cursor.blanks() == old(cursor).blanks(),
            cursor.index() >= old(cursor).index(),
            events@.len() >= n0,
            events@.take(n0 as int) == old(events)@,
            item_count <= header.length,
            cursor.index() >= old(cursor).index() + item_count,
            events@.len() >= n0 + item_count,
        decreases cursor.lines().len() - cursor.index(),
    {
        if cursor.at_end_sync() || item_count >= header.length {
            break ;
        }
        let line: ParsedLine;
        match cursor.peek_sync() {
            Option::None => {
                break ;
            },
            Option::Some(l) => {
                line = clone_parsed_line(l);
            },
        }
        if line.depth < item_depth {
            break ;
        }

        let content_chars = chars_of(line.content.as_str());
        let is_marker_only = content_chars.len() == 1 && content_chars[0] == '-';
        let is_list_item = is_list_item_start(&content_chars) || is_marker_only;
        if line.depth == item_depth && is_list_item {
            if start_line.is_none() {
                start_line = Some(line.line_number);
            }
            end_line = Some(line.line_number);

            let ghost n_mid = events@.len();
            match decode_list_item_sync(events, cursor, item_depth, options) {
                Result::Ok(_) => {},
                Result::Err(e) => {
                    return Err(e);
                },
            }
            proof {
                assert(events@.take(n0 as int) =~= events@.take(n_mid as int).take(n0 as int));
            }

            match cursor.current() {
                Option::Some(current) => {
                    end_line = Some(current.line_number);
                },
                Option::None => {},
            }

            item_count += 1;
        } else {
            break ;
        }
    }

    match assert_expected_count(item_count, header.length, "list array items", options.strict) {
        Result::Ok(_) => {},
        Result::Err(e) => {
            return Err(e);
        },
    }

    if options.strict {
        match (start_line, end_line) {
            (Option::Some(start), Option::Some(end)) => {
                match validate_no_blank_lines_in_range(
                    start,
                    end,
                    cursor.get_blank_lines(),
                    options.strict,
                    "list array",
                ) {
                    Result::Ok(_) => {},
                    Result::Err(e) => {
                        return Err(e);
                    },
                }
            },
            _ => {},
        }
    }

    match validate_no_extra_list_items(
        cursor.peek_sync(),
        item_depth,
        header.length,
        options.strict,
    ) {
        Result::Ok(_) => {},
        Result::Err(e) => {
            return Err(e);
        },
    }
    Ok(())
}

/// Decode one `- `-prefixed list item: a bare or empty marker is exactly an
/// empty object, a plain token after the marker exactly one primitive;
/// otherwise the text after the marker is dispatched as an array header, a
/// one-or-more-field object item, or a key-value line.
fn decode_list_item_sync(
    events: &mut Vec<JsonStreamEvent>,
    cursor: &mut StreamingLineCursor,
    base_depth: usize,
    options: DecoderContext,
) -> (r: Result<()>)
    requires
        old(cursor).wf(),
    ensures
        final(cursor).wf(),
        final(cursor).lines() == old(cursor).lines(),
        final(cursor).blanks() == old(cursor).blanks(),
        final(cursor).index() >= old(cursor).index(),
        r is Ok ==> final(cursor).index() > old(cursor).index(),
        final(events)@.len() >= old(events)@.len(),
        final(events)@.take(old(events)@.len() as int) == old(events)@,
        r is Ok ==> final(events)@.len() > old(events)@.len(),
        r is Ok && old(cursor).index() < old(cursor).lines().len() ==> ({
            let item = old(cursor).lines()[old(cursor).index()].content@;
            let n = old(events)@.len() as int;
            &&& (item == seq!['-'] || (starts_list_item(item) && trim_seq(
                item.skip(2),
            ).len() == 0)) ==> final(events)@.len() == n + 2 && final(events)@[n]
                == JsonStreamEvent::StartObject && final(events)@[n + 1]
                == JsonStreamEvent::EndObject
            &&& (starts_list_item(item) && trim_seq(item.skip(2)).len() > 0 && header_spec(
                item.skip(2),
                ',',
            ) is NotHeader && find_unquoted_from(item.skip(2), ':', 0, false) is None)
                ==> final(events)@.len() == n + 1 && event_model(final(events)@[n])
                == EventModel::Prim(primitive_token_spec(item.skip(2)).unwrap())
        }),
    decreases cursor.lines().len() - cursor.index(), 0int,
{
    let ghost n0 = events@.len();
    if base_depth == usize::MAX {
        return Err(ToonError::message("Nesting too deep"));
    }
    let line = match cursor.next_sync() {
        Option::Some(l) => l,
        Option::None => {
            return Err(ToonError::message("Expected list item"));
        },
    };

    let cs = chars_of(line.content.as_str());
    proof {
        assert(line == old(cursor).lines()[old(cursor).index()]);
        if cs@.len() == 1 && cs@[0] == '-' {
            assert(cs@ =~= seq!['-']);
        } else {
            assert(cs@ != seq!['-']) by {
                if cs@ == seq!['-'] {
                    assert(cs@.len() == 1 && cs@[0] == '-');
                }
            }
        }
    }
    if cs.len() == 1 && cs[0] == '-' {
        events.push(JsonStreamEvent::StartObject);
        events.push(JsonStreamEvent::EndObject);
        proof {
            assert(events@.take(n0 as int) =~= old(events)@);
        }
        return Ok(());
    }

    if !is_list_item_start(&cs) {
        return Err(ToonError::message("Expected list item to start with \"- \""));
    }
    let after_hyphen = subrange_chars(&cs, 2, cs.len());
    proof {
        assert(after_hyphen@ =~= cs@.skip(2));
    }

    let after_trimmed = trim_chars(&after_hyphen);
    if after_trimmed.len() == 0 {
        events.push(JsonStreamEvent::StartObject);
        events.push(JsonStreamEvent::EndObject);
        proof {
            assert(events@.take(n0 as int) =~= old(events)@);
        }
        return Ok(());
    }

    if chars_array_header_content(&after_hyphen) {
        match chars_array_header_line(&after_hyphen, ',') {
            Result::Ok(Option::Some(header_info)) => {
                return decode_array_from_header_sync(
                    events,
                    header_info,
                    cursor,
                    base_depth,
                    options,
                );
            },
            Result::Ok(Option::None) => {},
            Result::Err(e) => {
                return Err(e);
            },
        }
    }

    match chars_array_header_line(&after_hyphen, ',') {
        Result::Ok(Option::Some(header_info)) => {
            let has_key = match &header_info.header.key {
                Option::Some(_) => true,
                Option::None => false,
            };
            let has_fields = match &header_info.header.fields {
                Option::Some(_) => true,
                Option::None => false,
            };
            if has_key && has_fields {
                events.push(JsonStreamEvent::StartObject);
                let key_clone = match &header_info.header.key {
                    Option::Some(k) => k.clone(),
                    Option::None => String::new(),
                };
                events.push(JsonStreamEvent::Key { key: key_clone, was_quoted: false });
                proof {
                    assert(events@.take(n0 as int) =~= old(events)@);
                }
                let ghost n1 = events@.len();
                match decode_array_from_header_sync(
                    events,
                    header_info,
                    cursor,
                    base_depth + 1,
                    options,
                ) {
                    Result::Ok(_) => {},
                    Result::Err(e) => {
                        return Err(e);
                    },
                }
                proof {
                    assert(events@.take(n0 as int) =~= events@.take(n1 as int).take(n0 as int));
                }

                match decode_following_fields(events, cursor, base_depth + 1, options) {
                    Result::Ok(_) => {},
                    Result::Err(e) => {
                        return Err(e);
                    },
                }
                events.push(JsonStreamEvent::EndObject);
                proof {
                    assert(events@.take(n0 as int) =~= old(events)@);
                }
                return Ok(());
            }
        },
        Result::Ok(Option::None) => {},
        Result::Err(e) => {
            return Err(e);
        },
    }

    let has_colon = match find_unquoted_in_chars(&after_hyphen, ':', 0) {
        Option::Some(_) => true,
        Option::None => false,
    };
    if has_colon {
        events.push(JsonStreamEvent::StartObject);
        proof {
            assert(events@.take(n0 as int) =~= old(events)@);
        }
        let ghost n1 = events@.len();
        let after_string = string_from_chars(after_hyphen.as_slice());
        match decode_key_value_sync(events, after_string.as_str(), cursor, base_depth + 1, options)
            {
            Result::Ok(_) => {},
            Result::Err(e) => {
                return Err(e);
            },
        }
        proof {
            assert(events@.take(n0 as int) =~= events@.take(n1 as int).take(n0 as int));
        }
        let ghost n2 = events@.len();
        match decode_following_fields(events, cursor, base_depth + 1, options) {
            Result::Ok(_) => {},
            Result::Err(e) => {
                return Err(e);
            },
        }
        proof {
            assert(events@.take(n0 as int) =~= events@.take(n2 as int).take(n0 as int));
        }
        events.push(JsonStreamEvent::EndObject);
        proof {
            assert(events@.take(n0 as int) =~= old(events)@);
        }
        return Ok(());
    }

    match chars_primitive_token(&after_hyphen) {
        Result::Ok(value) => {
            events.push(JsonStreamEvent::Primitive { value });
            proof {
                assert(events@.take(n0 as int) =~= old(events)@);
            }
            Ok(())
        },
        Result::Err(e) => Err(e),
    }
}

/// Consume the sibling `key: value` lines that follow a list item's first
/// field at the same depth, stopping at a dedent or another list item. At
/// the end of input, or when the next line already sits shallower, nothing
/// is consumed or emitted.
fn decode_following_fields(
    events: &mut Vec<JsonStreamEvent>,
    cursor: &mut StreamingLineCursor,
    follow_depth: usize,
    options: DecoderContext,
) -> (r: Result<()>)
    requires
        old(cursor).wf(),
    ensures
        final(cursor).wf(),
        final(cursor).lines() == old(cursor).lines(),
        final(cursor).blanks() == old(cursor).blanks(),
        final(cursor).index() >= old(cursor).index(),
        final(events)@.len() >= old(events)@.len(),
        final(events)@.take(old(events)@.len() as int) == old(events)@,
        old(cursor).index() == old(cursor).lines().len() ==> r is Ok && final(cursor).index()
            == old(cursor).index() && final(events)@ == old(events)@,
        (old(cursor).index() < old(cursor).lines().len() && old(cursor).lines()[old(
            cursor,
        ).index()].depth < follow_depth) ==> r is Ok && final(cursor).index() == old(
            cursor,
        ).index() && final(events)@ == old(events)@,
    decreases cursor.lines().len() - cursor.index(), 3int,
{
    let ghost n0 = events@.len();
    loop
        invariant
            cursor.wf(),
            cursor.lines() == old(cursor).lines(),
            cursor.blanks() == old(cursor).blanks(),
            cursor.index() >= old(cursor).index(),
            events@.len() >= n0,
            events@.take(n0 as int) == old(events)@,
            (old(cursor).index() == old(cursor).lines().len() || (old(cursor).index() < old(
                cursor,
            ).lines().len() && old(cursor).lines()[old(cursor).index()].depth < follow_depth))
                ==> cursor.index() == old(cursor).index() && events@ == old(events)@,
        decreases cursor.lines().len() - cursor.index(),
    {
        if cursor.at_end_sync() {
            break ;
        }
        let next_line: ParsedLine;
        match cursor.peek_sync() {
            Option::None => {
                break ;
            },
            Option::Some(l) => {
                next_line = clone_parsed_line(l);
            },
        }
        if next_line.depth < follow_depth {
            break ;
        }
        let content_chars = chars_of(next_line.content.as_str());
        if next_line.depth == follow_depth && !is_list_item_start(&content_chars) {
            cursor.advance_sync();
            let ghost n_mid = events@.len();
            match decode_key_value_sync(
                events,
                next_line.content.as_str(),
                cursor,
                follow_depth,
                options,
            ) {
                Result::Ok(_) => {},
                Result::Err(e) => {
                    return Err(e);
                },
            }
            proof {
                assert(events@.take(n0 as int) =~= events@.take(n_mid as int).take(n0 as int));
            }
        } else {
            break ;
        }
    }
    Ok(())
}

/// Rewrite one tabular row into an object: a `Key` then a `Primitive` per
/// field, filling missing values with `Null`.
fn yield_object_from_fields(
    events: &mut Vec<JsonStreamEvent>,
    fields: &Vec<String>,
    primitives: &Vec<crate::value::JsonPrimitive>,
) -> (r: ())
    ensures
        final(events)@.len() == old(events)@.len() + 2 + 2 * fields@.len(),
        final(events)@.take(old(events)@.len() as int) == old(events)@,
        final(events)@[old(events)@.len() as int] == JsonStreamEvent::StartObject,
        final(events)@.last() == JsonStreamEvent::EndObject,
        forall|j: int|
            0 <= j < fields@.len() ==> event_model(
                #[trigger] final(events)@[old(events)@.len() + 1 + 2 * j],
            ) == EventModel::Key(fields@[j]@, false) && event_model(
                final(events)@[old(events)@.len() + 2 + 2 * j],
            ) == EventModel::Prim(
                if j < primitives@.len() {
                    prim_model(primitives@[j])
                } else {
                    prim_model(StringOrNumberOrBoolOrNull::Null)
                },
            ),
{
    let ghost n0 = events@.len();
    events.push(JsonStreamEvent::StartObject);
    let mut idx: usize = 0;
    while idx < fields.len()
        invariant
            0 <= idx <= fields@.len(),
            events@.len() == n0 + 1 + 2 * idx,
            events@.take(n0 as int) == old(events)@,
            events@[n0 as int] == JsonStreamEvent::StartObject,
            forall|j: int|
                0 <= j < idx ==> event_model(#[trigger] events@[n0 + 1 + 2 * j])
                    == EventModel::Key(fields@[j]@, false) && event_model(events@[n0 + 2 + 2 * j])
                    == EventModel::Prim(
                    if j < primitives@.len() {
                        prim_model(primitives@[j])
                    } else {
                        prim_model(StringOrNumberOrBoolOrNull::Null)
                    },
                ),
        decreases fields.len() - idx,
    {
        events.push(JsonStreamEvent::Key { key: fields[idx].clone(), was_quoted: false });
        if idx < primitives.len() {
            let value = crate::value::clone_primitive(&primitives[idx]);
            events.push(JsonStreamEvent::Primitive { value });
        } else {
            events.push(
                JsonStreamEvent::Primitive { value: StringOrNumberOrBoolOrNull::Null },
            );
        }
        idx += 1;
        proof {
            assert(events@.take(n0 as int) =~= events@.drop_last().drop_last().take(n0 as int));
        }
    }
    events.push(JsonStreamEvent::EndObject);
    proof {
        assert(events@.take(n0 as int) =~= events@.drop_last().take(n0 as int));
    }
}

} // verus!
