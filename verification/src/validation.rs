//! Strict-mode invariant checks the decode engine consults: count
//! assertions, bans on blank lines inside a block, and bans on extra rows or
//! items beyond a declared count. In lenient mode every check passes.

use vstd::prelude::*;

verus! {

use crate::error::{Result, ToonError};
use crate::scanner::{ParsedLine, BlankLineInfo};
use crate::parser::ArrayHeaderInfo;
use crate::text::{find_unquoted_from, find_unquoted_in_chars, chars_of, decimal_string};

/// Does the line open a list item: `- ` or the bare marker `-`?
pub open spec fn starts_list_item(s: Seq<char>) -> bool {
    s.len() >= 2 && s[0] == '-' && s[1] == ' '
}

/// Executable form of [`starts_list_item`].
pub fn is_list_item_start(cs: &Vec<char>) -> (r: bool)
    ensures
        r == starts_list_item(cs@),
{
    cs.len() >= 2 && cs[0] == '-' && cs[1] == ' '
}

/// In strict mode, an actual count must equal the declared one.
///
/// Fails exactly when strict mode is on and the counts differ.
pub fn assert_expected_count(actual: usize, expected: usize, item_type: &str, strict: bool) -> (r:
    Result<()>)
    ensures
        r is Ok <==> (!strict || actual == expected),
{
    if strict && actual != expected {
        let mut msg = String::from_str("Expected ");
        msg.append(decimal_string(expected).as_str());
        msg.append(" ");
        msg.append(item_type);
        msg.append(", but got ");
        msg.append(decimal_string(actual).as_str());
        return Err(ToonError::message_owned(msg));
    }
    Ok(())
}

/// In strict mode, no further list item may follow at the same depth once
/// the declared count is reached.
///
/// Fails exactly when strict mode is on and the next line is a list item at
/// the item depth.
pub fn validate_no_extra_list_items(
    next_line: Option<&ParsedLine>,
    item_depth: usize,
    expected_count: usize,
    strict: bool,
) -> (r: Result<()>)
    ensures
        r is Ok <==> !(strict && (next_line matches Some(l) && l.depth == item_depth
            && starts_list_item(l.content@))),
{
    if strict {
        match next_line {
            Option::Some(line) => {
                let cs = chars_of(line.content.as_str());
                if line.depth == item_depth && is_list_item_start(&cs) {
                    let mut msg = String::from_str("Expected ");
                    msg.append(decimal_string(expected_count).as_str());
                    msg.append(" list array items, but found more");
                    return Err(ToonError::message_owned(msg));
                }
            },
            Option::None => {},
        }
    }
    Ok(())
}

/// Does a line read as a tabular data row rather than a key-value line: no
/// unquoted colon at all, or an unquoted delimiter before the first one?
pub open spec fn is_data_row_spec(s: Seq<char>, delimiter: char) -> bool {
    match find_unquoted_from(s, ':', 0, false) {
        Option::None => true,
        Option::Some(cp) => match find_unquoted_from(s, delimiter, 0, false) {
            Option::Some(dp) => dp < cp,
            Option::None => false,
        },
    }
}

fn is_data_row(content: &str, delimiter: char) -> (r: bool)
    ensures
        r == is_data_row_spec(content@, delimiter),
{
    let cs = chars_of(content);
    let colon_pos = find_unquoted_in_chars(&cs, ':', 0);
    match colon_pos {
        Option::None => true,
        Option::Some(cp) => {
            match find_unquoted_in_chars(&cs, delimiter, 0) {
                Option::Some(dp) => dp < cp,
                Option::None => false,
            }
        },
    }
}

/// In strict mode, no further data row may follow at the row depth once the
/// declared count is reached.
///
/// Fails exactly when strict mode is on and the next line sits at the row
/// depth, is not a list item, and reads as a data row under the array's
/// delimiter.
pub fn validate_no_extra_tabular_rows(
    next_line: Option<&ParsedLine>,
    row_depth: usize,
    header: &ArrayHeaderInfo,
    strict: bool,
) -> (r: Result<()>)
    ensures
        r is Ok <==> !(strict && (next_line matches Some(l) && l.depth == row_depth
            && !starts_list_item(l.content@) && is_data_row_spec(l.content@, header.delimiter))),
{
    if strict {
        match next_line {
            Option::Some(line) => {
                let cs = chars_of(line.content.as_str());
                if line.depth == row_depth && !is_list_item_start(&cs) && is_data_row(
                    line.content.as_str(),
                    header.delimiter,
                ) {
                    let mut msg = String::from_str("Expected ");
                    msg.append(decimal_string(header.length).as_str());
                    msg.append(" tabular rows, but found more");
                    return Err(ToonError::message_owned(msg));
                }
            },
            Option::None => {},
        }
    }
    Ok(())
}

/// Is some recorded blank line strictly between the two content lines?
pub open spec fn has_blank_in_range(blanks: Seq<BlankLineInfo>, start: int, end: int) -> bool {
    exists|i: int| 0 <= i < blanks.len() && start < #[trigger] blanks[i].line_number < end
}

/// In strict mode, no blank line may sit strictly between the first and last
/// content line of a block.
///
/// Fails exactly when strict mode is on and a recorded blank line falls in
/// the open interval.
pub fn validate_no_blank_lines_in_range(
    start_line: usize,
    end_line: usize,
    blank_lines: &Vec<BlankLineInfo>,
    strict: bool,
    context: &str,
) -> (r: Result<()>)
    ensures
        r is Ok <==> !(strict && has_blank_in_range(blank_lines@, start_line as int,
        end_line as int)),
{
    if !strict {
        return Ok(());
    }
    let mut i: usize = 0;
    while i < blank_lines.len()
        invariant
            strict,
            0 <= i <= blank_lines@.len(),
            forall|k: int|
                0 <= k < i ==> !(start_line < #[trigger] blank_lines@[k].line_number < end_line),
        decreases blank_lines.len() - i,
    {
        let b = &blank_lines[i];
        if b.line_number > start_line && b.line_number < end_line {
            proof {
                assert(start_line < blank_lines@[i as int].line_number < end_line);
                assert(has_blank_in_range(blank_lines@, start_line as int, end_line as int));
            }
            let mut msg = String::from_str("Line ");
            msg.append(decimal_string(b.line_number).as_str());
            msg.append(": Blank lines inside ");
            msg.append(context);
            msg.append(" are not allowed in strict mode");
            return Err(ToonError::message_owned(msg));
        }
        i += 1;
    }
    Ok(())
}

} // verus!
