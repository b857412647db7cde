//! Carrying out an insertion on the contents of a file.
use vstd::prelude::*;
use crate::error::{ScriptError, ScriptErrorView};
use crate::model::{
    FinderOption, InsertCommand, InsertCommandView, LineCommand, LineCommandView,
    SupportedLanguage,
};
use crate::string_utils::{lemma_location_in_range, locate_result, location, location_view};
use crate::text::{
    chars_of, contains, contains_chars, extend_chars, is_white_space, last_index_in_prefix, last_index_of,
    lemma_last_index_in_range, leading_ws, slice_chars, string_of, white_space,
};

verus! {

/// The nearest non-empty line that ends before the end of `prefix`: the text
/// after a newline and up to the next newline (or the end of `prefix`). Text
/// before the first newline is never such a line.
pub open spec fn previous_line(prefix: Seq<char>) -> Option<Seq<char>>
    decreases prefix.len(),
{
    match last_index_of(prefix, '\n') {
        None => None,
        Some(k) => {
            proof {
                lemma_last_index_in_range(prefix, '\n');
            }
            let line = prefix.skip(k + 1);
            if line.len() > 0 {
                Some(line)
            } else {
                previous_line(prefix.take(k))
            }
        },
    }
}

/// The white space at the start of a line.
pub open spec fn indentation(line: Seq<char>) -> Seq<char> {
    line.take(leading_ws(line) as int)
}

/// The text that an insertion command writes, indented like `indent`.
pub open spec fn insertion_text(
    command: InsertCommandView,
    indent: Seq<char>,
    options: Seq<FinderOption>,
) -> Seq<char> {
    match command {
        InsertCommandView::EnumCaseWithRaw(key, raw) => "\n"@ + indent + "case "@ + key
            + " = \""@ + raw + "\""@ + (if options.contains(FinderOption::IfFallbackExtraNewline) {
            "\n"@
        } else {
            Seq::<char>::empty()
        }),
    }
}

/// The contents after inserting at `loc`: the new text is indented like the
/// nearest non-empty line before `loc`, and goes in at `loc`.
pub open spec fn inserted(
    command: InsertCommandView,
    contents: Seq<char>,
    loc: int,
    options: Seq<FinderOption>,
) -> Result<Seq<char>, ScriptErrorView> {
    match previous_line(contents.take(loc)) {
        None => Err(ScriptErrorView::NoPreviousLine),
        Some(line) => Ok(
            contents.take(loc) + insertion_text(command, indentation(line), options)
                + contents.skip(loc),
        ),
    }
}

/// What an insertion line does to the contents of its file: the start finder
/// is searched in the whole contents, the marker finder in what follows the
/// start, and the text goes in at the marker.
pub open spec fn executed(command: LineCommandView, contents: Seq<char>) -> Result<
    Seq<char>,
    ScriptErrorView,
> {
    match command {
        LineCommandView::Insert(_, start, marker, insert) => match location(contents, start) {
            Err(e) => Err(e),
            Ok((Err(_), _)) => Err(ScriptErrorView::NoMatch),
            Ok((Ok(s), _)) => match location(contents.skip(s), marker) {
                Err(e) => Err(e),
                Ok((Err(_), _)) => Err(ScriptErrorView::NoMatch),
                Ok((Ok(i), options)) => inserted(insert, contents, s + i, options),
            },
        },
        _ => Err(ScriptErrorView::NotAnInsert),
    }
}

/// The view of a character-vector result.
pub open spec fn chars_result_view(r: Result<Vec<char>, ScriptError>) -> Result<
    Seq<char>,
    ScriptErrorView,
> {
    match r {
        Ok(v) => Ok(v@),
        Err(e) => Err(e@),
    }
}

fn push_literal(v: &mut Vec<char>, s: &str)
    ensures
        final(v)@ == old(v)@ + s@,
{
    let w = chars_of(s);
    extend_chars(v, &w);
}

fn has_extra_newline(options: &Vec<FinderOption>) -> (r: bool)
    ensures
        r == options@.contains(FinderOption::IfFallbackExtraNewline),
{
    let mut i: usize = 0;
    while i < options.len()
        invariant
            i <= options@.len(),
            forall|k: int| 0 <= k < i ==> options@[k] != FinderOption::IfFallbackExtraNewline,
        decreases options@.len() - i,
    {
        if options[i] == FinderOption::IfFallbackExtraNewline {
            assert(options@[i as int] == FinderOption::IfFallbackExtraNewline);
            return true;
        }
        i += 1;
    }
    false
}

fn apply_insert_result(
    command: &InsertCommand,
    contents: &[char],
    true_loc: usize,
    active_options: &Vec<FinderOption>,
) -> (r: Result<Vec<char>, ScriptError>)
    requires
        true_loc <= contents@.len(),
    ensures
        chars_result_view(r) == inserted(command@, contents@, true_loc as int, active_options@),
{
    let mut end_loc: usize = true_loc;
    let ghost whole = contents@.take(true_loc as int);
    let mut prev_start: usize = 0;
    loop
        invariant_except_break
            end_loc <= true_loc <= contents@.len(),
            whole == contents@.take(true_loc as int),
            previous_line(whole) == previous_line(contents@.take(end_loc as int)),
        ensures
            prev_start < end_loc <= contents@.len(),
            previous_line(whole) == Some(contents@.subrange(prev_start as int, end_loc as int)),
        decreases end_loc,
    {
        let ghost p = contents@.take(end_loc as int);
        proof {
            lemma_last_index_in_range(p, '\n');
        }
        match last_index_in_prefix(contents, '\n', end_loc) {
            None => {
                return Err(ScriptError::NoPreviousLine);
            },
            Some(k) => {
                if k + 1 < end_loc {
                    assert(p.skip(k + 1) =~= contents@.subrange(k + 1, end_loc as int));
                    assert(previous_line(p) == Some(p.skip(k + 1)));
                    prev_start = k + 1;
                    break ;
                }
                assert(p.take(k as int) =~= contents@.take(k as int));
                assert(p.skip(k + 1).len() == 0);
                end_loc = k;
            },
        }
    }
    let prev_line = slice_chars(contents, prev_start, end_loc);
    let mut n: usize = 0;
    while n < prev_line.len() && white_space(prev_line[n])
        invariant
            n <= prev_line@.len(),
            forall|k: int| 0 <= k < n ==> is_white_space(#[trigger] prev_line@[k]),
        decreases prev_line@.len() - n,
    {
        n += 1;
    }
    proof {
        crate::text::lemma_leading_ws(prev_line@, n as int);
    }
    let whitespace = slice_chars(&prev_line, 0, n);
    let mut out = slice_chars(contents, 0, true_loc);
    match command {
        InsertCommand::EnumCaseWithRaw(key, raw) => {
            push_literal(&mut out, "\n");
            extend_chars(&mut out, &whitespace);
            push_literal(&mut out, "case ");
            push_literal(&mut out, key.as_str());
            push_literal(&mut out, " = \"");
            push_literal(&mut out, raw.as_str());
            push_literal(&mut out, "\"");
            if has_extra_newline(active_options) {
                push_literal(&mut out, "\n");
            }
        },
    }
    let rest = slice_chars(contents, true_loc, contents.len());
    extend_chars(&mut out, &rest);
    assert(out@ =~= contents@.take(true_loc as int) + insertion_text(
        command@,
        indentation(prev_line@),
        active_options@,
    ) + contents@.skip(true_loc as int));
    Ok(out)
}

fn execute_result(
    command: &LineCommand,
    language: &SupportedLanguage,
    file_contents: &str,
) -> (r: Result<String, ScriptError>)
    ensures
        match r {
            Ok(s) => executed(command@, file_contents@) == Ok::<Seq<char>, ScriptErrorView>(s@),
            Err(e) => executed(command@, file_contents@) == Err::<Seq<char>, ScriptErrorView>(
                e@,
            ),
        },
{
    match command {
        LineCommand::Insert(_, start_finder, insert_marker_finder, insert) => {
            let contents = chars_of(file_contents);
            proof {
                lemma_location_in_range(contents@, start_finder@);
            }
            let start_loc = match locate_result(&contents, start_finder) {
                Err(e) => return Err(e),
                Ok((Err(_), _)) => return Err(ScriptError::NoMatch),
                Ok((Ok(i), _)) => i,
            };
            let hunk = slice_chars(&contents, start_loc, contents.len());
            assert(hunk@ =~= contents@.skip(start_loc as int));
            proof {
                lemma_location_in_range(hunk@, insert_marker_finder@);
            }
            let (loc, options) = match locate_result(&hunk, insert_marker_finder) {
                Err(e) => return Err(e),
                Ok((Err(_), _)) => return Err(ScriptError::NoMatch),
                Ok((Ok(i), o)) => (i, o),
            };
            match apply_insert_result(insert, &contents, loc + start_loc, &options) {
                Ok(v) => Ok(string_of(&v)),
                Err(e) => Err(e),
            }
        },
        _ => Err(ScriptError::NotAnInsert),
    }
}

/// Inserts the text of `command` at `true_loc`, indented like the nearest
/// non-empty line before it; some line before `true_loc`, after a newline,
/// must be non-empty.
pub fn apply_insert(
    command: &InsertCommand,
    contents: &[char],
    true_loc: usize,
    active_options: &Vec<FinderOption>,
) -> (r: Vec<char>)
    requires
        true_loc <= contents@.len(),
        inserted(command@, contents@, true_loc as int, active_options@) is Ok,
    ensures
        inserted(command@, contents@, true_loc as int, active_options@) == Ok::<
            Seq<char>,
            ScriptErrorView,
        >(r@),
{
    match apply_insert_result(command, contents, true_loc, active_options) {
        Ok(v) => v,
        Err(_) => unreached(),
    }
}

/// Carries out an insertion line on the contents of its file and gives the
/// new contents (`language` is the script's language, which the insertion
/// does not depend on). The command must be an insertion whose finders find
/// their locations and whose text has a line above it to be indented like.
pub fn execute_command(
    command: &LineCommand,
    language: &SupportedLanguage,
    file_contents: &str,
) -> (r: String)
    requires
        executed(command@, file_contents@) is Ok,
    ensures
        executed(command@, file_contents@) == Ok::<Seq<char>, ScriptErrorView>(r@),
{
    match execute_result(command, language, file_contents) {
        Ok(s) => s,
        Err(_) => unreached(),
    }
}

/// `execute_command`, or the reason the line cannot be carried out.
pub fn try_execute_command(
    command: &LineCommand,
    language: &SupportedLanguage,
    file_contents: &str,
) -> (r: Result<String, ScriptError>)
    ensures
        match r {
            Ok(s) => executed(command@, file_contents@) == Ok::<Seq<char>, ScriptErrorView>(s@),
            Err(e) => executed(command@, file_contents@) == Err::<Seq<char>, ScriptErrorView>(
                e@,
            ),
        },
{
    match execute_result(command, language, file_contents) {
        Ok(_) => Ok(execute_command(command, language, file_contents)),
        Err(e) => Err(e),
    }
}

/// Whether a path in the execution directory names the file an insertion
/// line is about: the path contains the line's file name. The first path,
/// in the order of the directory walk, that does is the file used.
pub fn path_names_file(path: &str, filename: &str) -> (r: bool)
    ensures
        r == contains(path@, filename@),
{
    let p = chars_of(path);
    let f = chars_of(filename);
    contains_chars(&p, &f)
}

} // verus!
