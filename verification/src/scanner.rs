//! The line scanner: turns raw text lines into `(indent, depth, content,
//! line number)` records, files blank lines away for later range checks, and
//! enforces the strict-mode indentation rules.

use vstd::prelude::*;

verus! {

use crate::text::{is_ws_char, is_whitespace_char, chars_of, string_from_chars};
use crate::error::{Result, ToonError};

/// One scanned non-blank line.
#[derive(Debug, PartialEq)]
pub struct ParsedLine {
    /// The raw line as handed in.
    pub raw: String,
    /// Number of leading space characters.
    pub indent: usize,
    /// The line with its leading indent stripped.
    pub content: String,
    /// `indent / indent_size` (0 when the indent size is 0).
    pub depth: usize,
    /// 1-based position in the input.
    pub line_number: usize,
}

/// Where a blank line sat, for strict-mode range checks.
#[derive(Debug, PartialEq)]
pub struct BlankLineInfo {
    pub line_number: usize,
    pub indent: usize,
    pub depth: usize,
}

/// Scanner state threaded through incremental line parsing.
#[derive(Debug)]
pub struct StreamingScanState {
    pub line_number: usize,
    pub blank_lines: Vec<BlankLineInfo>,
}

/// Nesting depth of a scanned line: its leading spaces divided by the
/// configured indent width (depth 0 when the width is 0).
pub fn compute_depth_from_indent(indent_spaces: usize, indent_size: usize) -> (depth: usize)
    ensures
        indent_size == 0 ==> depth == 0,
        indent_size > 0 ==> depth == indent_spaces as int / indent_size as int,
{
    if indent_size == 0 {
        return 0;
    }
    indent_spaces / indent_size
}

/// A fresh scanner state: no lines seen, no blanks recorded.
pub fn create_scan_state() -> (r: StreamingScanState)
    ensures
        r.line_number == 0,
        r.blank_lines@ =~= Seq::<BlankLineInfo>::empty(),
{
    StreamingScanState { line_number: 0, blank_lines: Vec::new() }
}

/// Number of leading space characters of `s` from `i` on.
pub open spec fn space_run_end(s: Seq<char>, i: int) -> int
    decreases s.len() - i,
{
    if 0 <= i < s.len() && s[i] == ' ' {
        space_run_end(s, i + 1)
    } else {
        i
    }
}

/// The indent of a line: its number of leading spaces.
pub open spec fn spec_indent(s: Seq<char>) -> int {
    space_run_end(s, 0)
}

/// End of the leading run of spaces and tabs.
pub open spec fn ws_tab_run_end(s: Seq<char>, i: int) -> int
    decreases s.len() - i,
{
    if 0 <= i < s.len() && (s[i] == ' ' || s[i] == '\t') {
        ws_tab_run_end(s, i + 1)
    } else {
        i
    }
}

/// Does the line's leading whitespace contain a tab?
pub open spec fn has_leading_tab(s: Seq<char>) -> bool {
    ws_tab_run_end(s, 0) > spec_indent(s)
}

/// Is the line blank: nothing but whitespace after its leading spaces?
pub open spec fn line_blank(s: Seq<char>) -> bool {
    forall|k: int| spec_indent(s) <= k < s.len() ==> is_ws_char(s[k])
}

/// Depth of a line from its indent, by integer division.
pub open spec fn spec_depth(indent: int, indent_size: int) -> int {
    if indent_size == 0 {
        0
    } else {
        indent / indent_size
    }
}

/// Does strict mode reject this indent with this indent size?
pub open spec fn bad_indent(indent: int, indent_size: int) -> bool {
    if indent_size == 0 {
        indent > 0
    } else {
        indent > 0 && indent % indent_size != 0
    }
}

/// What scanning one raw line yields.
pub open spec fn scan_outcome(
    s: Seq<char>,
    indent_size: int,
    strict: bool,
    line_number: int,
) -> ScanOutcome {
    if line_blank(s) {
        ScanOutcome::Blank
    } else if strict && has_leading_tab(s) {
        ScanOutcome::TabError
    } else if strict && bad_indent(spec_indent(s), indent_size) {
        ScanOutcome::IndentError
    } else {
        ScanOutcome::Line
    }
}

/// The four ways one scanned line can go.
pub ghost enum ScanOutcome {
    Blank,
    TabError,
    IndentError,
    Line,
}

proof fn lemma_space_run_end_agrees(s: Seq<char>, from: int, e: int)
    requires
        0 <= from <= e <= s.len(),
        forall|k: int| from <= k < e ==> s[k] == ' ',
        e < s.len() ==> s[e] != ' ',
    ensures
        space_run_end(s, from) == e,
    decreases e - from,
{
    if from < e {
        lemma_space_run_end_agrees(s, from + 1, e);
    }
}

proof fn lemma_ws_tab_run_end_agrees(s: Seq<char>, from: int, e: int)
    requires
        0 <= from <= e <= s.len(),
        forall|k: int| from <= k < e ==> s[k] == ' ' || s[k] == '\t',
        e < s.len() ==> !(s[e] == ' ' || s[e] == '\t'),
    ensures
        ws_tab_run_end(s, from) == e,
    decreases e - from,
{
    if from < e {
        lemma_ws_tab_run_end_agrees(s, from + 1, e);
    }
}

/// Scan one raw line: count its indent, skip it if blank (recording where it
/// was), apply the strict-mode whitespace rules, and hand back the parsed
/// line.
///
/// Fails exactly when strict mode is on and the leading whitespace holds a
/// tab, or the indent is not an exact multiple of the indent size (any
/// positive indent when the indent size is 0). Blank lines are exempt.
pub fn parse_line_incremental(
    raw: &str,
    state: &mut StreamingScanState,
    indent_size: usize,
    strict: bool,
) -> (r: Result<Option<ParsedLine>>)
    requires
        old(state).line_number < usize::MAX,
    ensures
        final(state).line_number == old(state).line_number + 1,
        ({
            let ln = old(state).line_number + 1;
            let ind = spec_indent(raw@);
            let dep = spec_depth(ind, indent_size as int);
            match scan_outcome(raw@, indent_size as int, strict, ln) {
                ScanOutcome::Blank => {
                    &&& r matches Ok(o) && o is None
                    &&& final(state).blank_lines@.len() == old(state).blank_lines@.len() + 1
                    &&& final(state).blank_lines@.last().line_number == ln
                    &&& final(state).blank_lines@.last().indent == ind
                    &&& final(state).blank_lines@.last().depth == dep
                    &&& final(state).blank_lines@.take(old(state).blank_lines@.len() as int)
                        == old(state).blank_lines@
                },
                ScanOutcome::TabError => {
                    &&& final(state).blank_lines == old(state).blank_lines
                    &&& r matches Err(e) && e matches ToonError::Validation { line, .. } && line
                        == ln
                },
                ScanOutcome::IndentError => {
                    &&& final(state).blank_lines == old(state).blank_lines
                    &&& r matches Err(e) && e matches ToonError::Validation { line, .. } && line
                        == ln
                },
                ScanOutcome::Line => {
                    &&& final(state).blank_lines == old(state).blank_lines
                    &&& r matches Ok(o) && o matches Some(pl) && pl.raw@ == raw@ && pl.indent == ind
                        && pl.content@ == raw@.skip(ind) && pl.depth == dep && pl.line_number == ln
                },
            }
        }),
{
    state.line_number = state.line_number + 1;
    let line_number = state.line_number;

    let cs = chars_of(raw);
    let mut indent: usize = 0;
    while indent < cs.len() && cs[indent] == ' '
        invariant
            0 <= indent <= cs.len(),
            forall|k: int| 0 <= k < indent ==> cs@[k] == ' ',
        decreases cs.len() - indent,
    {
        indent += 1;
    }
    proof {
        lemma_space_run_end_agrees(cs@, 0, indent as int);
    }

    // blank check: everything after the indent is whitespace
    let mut blank: bool = true;
    let mut j: usize = indent;
    while j < cs.len() && blank
        invariant
            indent <= j <= cs.len(),
            blank ==> forall|k: int| indent <= k < j ==> is_ws_char(cs@[k]),
            !blank ==> exists|k: int| indent <= k < cs@.len() && !is_ws_char(cs@[k]),
        decreases cs.len() - j,
    {
        if !is_whitespace_char(cs[j]) {
            blank = false;
        }
        j += 1;
    }

    let depth = compute_depth_from_indent(indent, indent_size);

    if blank {
        state.blank_lines.push(BlankLineInfo { line_number, indent, depth });
        proof {
            assert(final(state).blank_lines@.take(old(state).blank_lines@.len() as int)
                =~= old(state).blank_lines@);
        }
        return Ok(None);
    }

    if strict {
        let mut ws_end: usize = 0;
        let mut saw_tab: bool = false;
        while ws_end < cs.len() && (cs[ws_end] == ' ' || cs[ws_end] == '\t')
            invariant
                0 <= ws_end <= cs.len(),
                forall|k: int| 0 <= k < ws_end ==> cs@[k] == ' ' || cs@[k] == '\t',
                saw_tab == exists|k: int| 0 <= k < ws_end && cs@[k] == '\t',
            decreases cs.len() - ws_end,
        {
            if cs[ws_end] == '\t' {
                saw_tab = true;
            }
            ws_end += 1;
        }
        proof {
            lemma_ws_tab_run_end_agrees(cs@, 0, ws_end as int);
            // a tab in the run sits at or after the space prefix; and if the
            // run is longer than the space prefix, its next character is a tab
            if saw_tab {
                assert(ws_end > indent) by {
                    let k = choose|k: int| 0 <= k < ws_end && cs@[k] == '\t';
                    assert(!(cs@[k] == ' '));
                }
            }
            if ws_end > indent {
                assert(cs@[indent as int] == '\t' || cs@[indent as int] == ' ');
            }
        }
        if saw_tab {
            return Err(ToonError::tabs_not_allowed(line_number));
        }
        proof {
            if has_leading_tab(cs@) {
                assert(cs@[indent as int] == '\t');
                assert(exists|k: int| 0 <= k < ws_end && cs@[k] == '\t');
            }
        }

        if indent_size == 0 {
            if indent > 0 {
                return Err(ToonError::invalid_indentation(line_number, indent_size, indent));
            }
        } else if indent > 0 && indent % indent_size != 0 {
            return Err(ToonError::invalid_indentation(line_number, indent_size, indent));
        }
    }

    let mut content_chars: Vec<char> = Vec::new();
    let mut k: usize = indent;
    while k < cs.len()
        invariant
            indent <= k <= cs.len(),
            content_chars@ == cs@.subrange(indent as int, k as int),
        decreases cs.len() - k,
    {
        content_chars.push(cs[k]);
        k += 1;
        proof {
            assert(content_chars@ =~= cs@.subrange(indent as int, k as int));
        }
    }
    proof {
        assert(cs@.subrange(indent as int, cs@.len() as int) =~= cs@.skip(indent as int));
    }
    let content = string_from_chars(content_chars.as_slice());
    let raw_string = string_from_chars(cs.as_slice());

    Ok(Some(ParsedLine { raw: raw_string, indent, content, depth, line_number }))
}

/// The ghost view of one scanned line.
pub ghost struct ScannedLine {
    pub raw: Seq<char>,
    pub indent: int,
    pub content: Seq<char>,
    pub depth: int,
    pub line_number: int,
}

/// The model of a parsed line.
pub open spec fn parsed_line_model(l: ParsedLine) -> ScannedLine {
    ScannedLine {
        raw: l.raw@,
        indent: l.indent as int,
        content: l.content@,
        depth: l.depth as int,
        line_number: l.line_number as int,
    }
}

/// What scanning one raw line yields, as a model.
pub open spec fn line_model_of(s: Seq<char>, indent_size: int, ln: int) -> ScannedLine {
    ScannedLine {
        raw: s,
        indent: spec_indent(s),
        content: s.skip(spec_indent(s)),
        depth: spec_depth(spec_indent(s), indent_size),
        line_number: ln,
    }
}

/// The scan results of a line list starting at line number `ln`: blank
/// lines skipped, every other line turned into its model, in order.
pub open spec fn scan_lines_spec(src: Seq<Seq<char>>, indent_size: int, ln: int) -> Seq<
    ScannedLine,
>
    decreases src.len(),
{
    if src.len() == 0 {
        Seq::empty()
    } else {
        let rest = scan_lines_spec(src.drop_first(), indent_size, ln + 1);
        if line_blank(src[0]) {
            rest
        } else {
            seq![line_model_of(src[0], indent_size, ln)] + rest
        }
    }
}

/// The ghost view of one recorded blank line.
pub ghost struct BlankModel {
    pub line_number: int,
    pub indent: int,
    pub depth: int,
}

/// The model of a blank-line record.
pub open spec fn blank_model(b: BlankLineInfo) -> BlankModel {
    BlankModel {
        line_number: b.line_number as int,
        indent: b.indent as int,
        depth: b.depth as int,
    }
}

/// The blank lines of a line list starting at line number `ln`, in order.
pub open spec fn blank_records(src: Seq<Seq<char>>, indent_size: int, ln: int) -> Seq<BlankModel>
    decreases src.len(),
{
    if src.len() == 0 {
        Seq::empty()
    } else {
        let rest = blank_records(src.drop_first(), indent_size, ln + 1);
        if line_blank(src[0]) {
            seq![
                BlankModel {
                    line_number: ln,
                    indent: spec_indent(src[0]),
                    depth: spec_depth(spec_indent(src[0]), indent_size),
                },
            ] + rest
        } else {
            rest
        }
    }
}

/// Does strict mode reject this line: non-blank with a leading tab or a
/// misaligned indent?
pub open spec fn line_rejected(s: Seq<char>, indent_size: int, strict: bool) -> bool {
    &&& !line_blank(s)
    &&& strict
    &&& (has_leading_tab(s) || bad_indent(spec_indent(s), indent_size))
}

/// Scan a whole line list, skipping blank lines but recording them.
///
/// Succeeds exactly when strict mode rejects no line; the returned lines
/// are exactly the scan results of the source lines, in order, and the
/// recorded blank lines are exactly the source's blank lines, in order.
pub fn parse_lines_sync(
    source: Vec<String>,
    indent_size: usize,
    strict: bool,
    state: &mut StreamingScanState,
) -> (r: Result<Vec<ParsedLine>>)
    requires
        old(state).line_number + source@.len() <= usize::MAX,
    ensures
        r matches Ok(lines) ==> final(state).line_number == old(state).line_number
            + source@.len(),
        r matches Ok(lines) ==> forall|k: int|
            0 <= k < lines@.len() ==> !line_blank(#[trigger] lines@[k].raw@) && lines@[k].content@
                == lines@[k].raw@.skip(spec_indent(lines@[k].raw@)) && lines@[k].indent
                == spec_indent(lines@[k].raw@) && lines@[k].depth == spec_depth(
                spec_indent(lines@[k].raw@),
                indent_size as int,
            ),
        r matches Ok(lines) ==> (strict ==> forall|k: int|
            0 <= k < lines@.len() ==> !has_leading_tab(#[trigger] lines@[k].raw@) && !bad_indent(
                spec_indent(lines@[k].raw@),
                indent_size as int,
            )),
        r matches Ok(lines) ==> (lines@.len() > 0 ==> exists|k: int|
            0 <= k < source@.len() && !line_blank(#[trigger] source@[k]@)),
        r is Err ==> strict,
        (forall|k: int| 0 <= k < source@.len() ==> line_blank(#[trigger] source@[k]@)) ==> r is Ok,
        r is Ok <==> (forall|k: int|
            0 <= k < source@.len() ==> !line_rejected(
                (#[trigger] source@[k])@,
                indent_size as int,
                strict,
            )),
        r matches Ok(lines) ==> lines@.map_values(|l: ParsedLine| parsed_line_model(l))
            == scan_lines_spec(
            source@.map_values(|s: String| s@),
            indent_size as int,
            old(state).line_number + 1,
        ),
        r matches Ok(lines) ==> final(state).blank_lines@.map_values(
            |b: BlankLineInfo| blank_model(b),
        ) == old(state).blank_lines@.map_values(|b: BlankLineInfo| blank_model(b))
            + blank_records(
            source@.map_values(|s: String| s@),
            indent_size as int,
            old(state).line_number + 1,
        ),
{
    let ghost views = source@.map_values(|s: String| s@);
    let ghost ln0 = old(state).line_number + 1;
    let ghost old_blanks = old(state).blank_lines@.map_values(|b: BlankLineInfo| blank_model(b));
    let mut lines: Vec<ParsedLine> = Vec::new();
    let mut i: usize = 0;
    proof {
        assert(views.skip(0) =~= views);
    }
    while i < source.len()
        invariant
            0 <= i <= source@.len(),
            old(state).line_number + source@.len() <= usize::MAX,
            state.line_number == old(state).line_number + i,
            views == source@.map_values(|s: String| s@),
            views.len() == source@.len(),
            ln0 == old(state).line_number + 1,
            old_blanks == old(state).blank_lines@.map_values(|b: BlankLineInfo| blank_model(b)),
            forall|k: int|
                0 <= k < lines@.len() ==> !line_blank(#[trigger] lines@[k].raw@)
                    && lines@[k].content@ == lines@[k].raw@.skip(spec_indent(lines@[k].raw@))
                    && lines@[k].indent == spec_indent(lines@[k].raw@) && lines@[k].depth
                    == spec_depth(spec_indent(lines@[k].raw@), indent_size as int),
            strict ==> forall|k: int|
                0 <= k < lines@.len() ==> !has_leading_tab(#[trigger] lines@[k].raw@)
                    && !bad_indent(spec_indent(lines@[k].raw@), indent_size as int),
            lines@.len() > 0 ==> exists|k: int|
                0 <= k < source@.len() && !line_blank(#[trigger] source@[k]@),
            forall|k: int|
                0 <= k < i ==> !line_rejected(#[trigger] views[k], indent_size as int, strict),
            lines@.map_values(|l: ParsedLine| parsed_line_model(l)) + scan_lines_spec(
                views.skip(i as int),
                indent_size as int,
                ln0 + i,
            ) == scan_lines_spec(views, indent_size as int, ln0),
            state.blank_lines@.map_values(|b: BlankLineInfo| blank_model(b)) + blank_records(
                views.skip(i as int),
                indent_size as int,
                ln0 + i,
            ) == old_blanks + blank_records(views, indent_size as int, ln0),
        decreases source@.len() - i,
    {
        let raw = &source[i];
        proof {
            assert(views.skip(i as int)[0] == views[i as int]);
            assert(views[i as int] == raw@);
            assert(views.skip(i as int).drop_first() =~= views.skip(i + 1));
        }
        let ghost lines_map = lines@.map_values(|l: ParsedLine| parsed_line_model(l));
        let ghost blanks_map = state.blank_lines@.map_values(|b: BlankLineInfo| blank_model(b));
        match parse_line_incremental(raw.as_str(), state, indent_size, strict) {
            Ok(Some(parsed)) => {
                proof {
                    let s = raw@;
                    match scan_outcome(s, indent_size as int, strict, state.line_number as int) {
                        ScanOutcome::Line => {
                            assert(!line_blank(source@[i as int]@));
                        },
                        _ => {
                            assert(false);
                        },
                    }
                }
                lines.push(parsed);
                proof {
                    assert(lines@.map_values(|l: ParsedLine| parsed_line_model(l)) =~= lines_map
                        + seq![line_model_of(views[i as int], indent_size as int, ln0 + i)]);
                    assert((lines_map + seq![
                        line_model_of(views[i as int], indent_size as int, ln0 + i),
                    ]) + scan_lines_spec(views.skip(i + 1), indent_size as int, ln0 + i + 1)
                        =~= lines_map + (seq![
                        line_model_of(views[i as int], indent_size as int, ln0 + i),
                    ] + scan_lines_spec(views.skip(i + 1), indent_size as int, ln0 + i + 1)));
                }
            },
            Ok(None) => {
                proof {
                    let s = raw@;
                    match scan_outcome(s, indent_size as int, strict, state.line_number as int) {
                        ScanOutcome::Blank => {},
                        _ => {
                            assert(false);
                        },
                    }
                    let rec = BlankModel {
                        line_number: ln0 + i,
                        indent: spec_indent(views[i as int]),
                        depth: spec_depth(spec_indent(views[i as int]), indent_size as int),
                    };
                    assert(state.blank_lines@.map_values(|b: BlankLineInfo| blank_model(b))
                        =~= blanks_map + seq![rec]);
                    assert((blanks_map + seq![rec]) + blank_records(
                        views.skip(i + 1),
                        indent_size as int,
                        ln0 + i + 1,
                    ) =~= blanks_map + (seq![rec] + blank_records(
                        views.skip(i + 1),
                        indent_size as int,
                        ln0 + i + 1,
                    )));
                }
            },
            Err(e) => {
                proof {
                    let s = raw@;
                    match scan_outcome(s, indent_size as int, strict, state.line_number as int) {
                        ScanOutcome::TabError => {
                            assert(!line_blank(source@[i as int]@));
                            assert(line_rejected(source@[i as int]@, indent_size as int, strict));
                        },
                        ScanOutcome::IndentError => {
                            assert(!line_blank(source@[i as int]@));
                            assert(line_rejected(source@[i as int]@, indent_size as int, strict));
                        },
                        _ => {
                            assert(false);
                        },
                    }
                }
                return Err(e);
            },
        }
        i += 1;
    }
    proof {
        assert forall|k: int| 0 <= k < source@.len() implies !line_rejected(
            (#[trigger] source@[k])@,
            indent_size as int,
            strict,
        ) by {
            assert(views[k] == source@[k]@);
        }
        assert(views.skip(views.len() as int) =~= Seq::<Seq<char>>::empty());
        assert(lines@.map_values(|l: ParsedLine| parsed_line_model(l))
            + Seq::<ScannedLine>::empty() =~= lines@.map_values(
            |l: ParsedLine| parsed_line_model(l),
        ));
        assert(state.blank_lines@.map_values(|b: BlankLineInfo| blank_model(b))
            + Seq::<BlankModel>::empty() =~= state.blank_lines@.map_values(
            |b: BlankLineInfo| blank_model(b),
        ));
    }
    Ok(lines)
}

/// A cursor over scanned lines: peek, advance, remember the last line taken.
#[derive(Debug)]
pub struct StreamingLineCursor {
    lines: Vec<ParsedLine>,
    index: usize,
    last_line: Option<ParsedLine>,
    blank_lines: Vec<BlankLineInfo>,
}

impl StreamingLineCursor {
    /// The scanned lines the cursor walks.
    pub closed spec fn lines(&self) -> Seq<ParsedLine> {
        self.lines@
    }

    /// The cursor's position: how many lines were consumed.
    pub closed spec fn index(&self) -> int {
        self.index as int
    }

    /// The blank lines recorded during scanning.
    pub closed spec fn blanks(&self) -> Seq<BlankLineInfo> {
        self.blank_lines@
    }

    /// The line most recently consumed.
    pub closed spec fn last(&self) -> Option<ParsedLine> {
        self.last_line
    }

    /// The cursor is somewhere in its line list.
    pub open spec fn wf(&self) -> bool {
        0 <= self.index() <= self.lines().len()
    }

    /// A cursor at the start of `lines`.
    pub fn new(lines: Vec<ParsedLine>, blank_lines: Vec<BlankLineInfo>) -> (c:
        StreamingLineCursor)
        ensures
            c.lines() == lines@,
            c.index() == 0,
            c.blanks() == blank_lines@,
            c.last() is None,
            c.wf(),
    {
        StreamingLineCursor { lines, index: 0, last_line: None, blank_lines }
    }

    /// The blank lines recorded during scanning.
    pub fn get_blank_lines(&self) -> (r: &Vec<BlankLineInfo>)
        ensures
            r@ == self.blanks(),
    {
        &self.blank_lines
    }

    /// The next line, if any, without consuming it.
    pub fn peek_sync(&self) -> (r: Option<&ParsedLine>)
        requires
            self.wf(),
        ensures
            match r {
                Option::Some(l) => self.index() < self.lines().len() && *l == self.lines()[
                    self.index()
                ],
                Option::None => self.index() == self.lines().len(),
            },
    {
        if self.index < self.lines.len() {
            Some(&self.lines[self.index])
        } else {
            None
        }
    }

    /// Consume the next line, if any.
    pub fn advance_sync(&mut self)
        requires
            old(self).wf(),
        ensures
            final(self).wf(),
            final(self).lines() == old(self).lines(),
            final(self).blanks() == old(self).blanks(),
            old(self).index() < old(self).lines().len() ==> final(self).index() == old(
                self,
            ).index() + 1 && (final(self).last() matches Some(l) && l == old(self).lines()[old(
                self,
            ).index()]),
            old(self).index() == old(self).lines().len() ==> final(self).index() == old(
                self,
            ).index() && final(self).last() == old(self).last(),
    {
        if self.index < self.lines.len() {
            let line = clone_parsed_line(&self.lines[self.index]);
            self.last_line = Some(line);
            self.index = self.index + 1;
        }
    }

    /// Consume and return the next line, if any.
    pub fn next_sync(&mut self) -> (r: Option<ParsedLine>)
        requires
            old(self).wf(),
        ensures
            final(self).wf(),
            final(self).lines() == old(self).lines(),
            final(self).blanks() == old(self).blanks(),
            match r {
                Option::Some(l) => old(self).index() < old(self).lines().len() && l == old(
                    self,
                ).lines()[old(self).index()] && final(self).index() == old(self).index() + 1
                    && final(self).last() == Some(l),
                Option::None => old(self).index() == old(self).lines().len() && final(self).index()
                    == old(self).index() && final(self).last() == old(self).last(),
            },
    {
        if self.index < self.lines.len() {
            let line = clone_parsed_line(&self.lines[self.index]);
            self.last_line = Some(clone_parsed_line(&line));
            self.index = self.index + 1;
            Some(line)
        } else {
            None
        }
    }

    /// The line most recently consumed, if any.
    pub fn current(&self) -> (r: Option<&ParsedLine>)
        ensures
            match r {
                Option::Some(l) => self.last() matches Some(c) && c == *l,
                Option::None => self.last() is None,
            },
    {
        self.last_line.as_ref()
    }

    /// Are all lines consumed?
    pub fn at_end_sync(&self) -> (r: bool)
        ensures
            r == (self.index() >= self.lines().len()),
    {
        self.index >= self.lines.len()
    }
}

/// A copy of a parsed line, equal to the original.
pub fn clone_parsed_line(l: &ParsedLine) -> (r: ParsedLine)
    ensures
        r == *l,
{
    ParsedLine {
        raw: l.raw.clone(),
        indent: l.indent,
        content: l.content.clone(),
        depth: l.depth,
        line_number: l.line_number,
    }
}

} // verus!
