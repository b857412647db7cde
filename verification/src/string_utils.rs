//! Parentheses in commands, and finding locations in a text.
//!
//! Locations are character indices into the text searched, except where
//! `get_location_in_string` turns them into byte offsets.
use vstd::prelude::*;
use crate::error::{ScriptError, ScriptErrorView};
use crate::model::{Finder, FinderOption, FinderView};
use crate::pattern::{compile_pattern, first_match_text, regex_accepts, regex_first_match};
use crate::text::{
    chars_of, find_chars, find_first, first_index_of, first_index_of_exec, last_index_of,
    last_index_of_exec, slice_chars, string_of, contains,
};

verus! {

/// `s` without everything from its first `(` to its last `)`.
pub open spec fn without_parens(s: Seq<char>) -> Result<Seq<char>, ScriptErrorView> {
    match first_index_of(s, '(') {
        None => Err(ScriptErrorView::NoOpenParen(s)),
        Some(first) => match last_index_of(s, ')') {
            None => Err(ScriptErrorView::NoCloseParen(s)),
            Some(last) => Ok(s.take(first) + s.skip(last + 1)),
        },
    }
}

/// What stands between the first `(` and the last `)` of `s`.
pub open spec fn inside_parens(s: Seq<char>) -> Result<Seq<char>, ScriptErrorView> {
    match first_index_of(s, '(') {
        None => Err(ScriptErrorView::NoOpenParen(s)),
        Some(first) => match last_index_of(s, ')') {
            None => Err(ScriptErrorView::NoCloseParen(s)),
            Some(last) => if first + 1 <= last {
                Ok(s.subrange(first + 1, last))
            } else {
                Err(ScriptErrorView::ParensOutOfOrder(s))
            },
        },
    }
}

/// The text inside the parentheses is shorter than the text.
pub proof fn lemma_inside_parens_shorter(s: Seq<char>)
    ensures
        inside_parens(s) matches Ok(t) ==> t.len() < s.len(),
{
    crate::text::lemma_first_index_in_range(s, '(');
    crate::text::lemma_last_index_in_range(s, ')');
}

pub(crate) fn remove_paren_chars(s: &[char]) -> (r: Result<Vec<char>, ScriptError>)
    ensures
        match r {
            Ok(v) => without_parens(s@) == Ok::<Seq<char>, ScriptErrorView>(v@),
            Err(e) => without_parens(s@) == Err::<Seq<char>, ScriptErrorView>(e@),
        },
{
    let first = match first_index_of_exec(s, '(') {
        Some(i) => i,
        None => return Err(ScriptError::NoOpenParen(string_of(s))),
    };
    let last = match last_index_of_exec(s, ')') {
        Some(i) => i,
        None => return Err(ScriptError::NoCloseParen(string_of(s))),
    };
    let n = s.len();
    assert(last < n);
    let mut out = slice_chars(s, 0, first);
    let rest = slice_chars(s, last + 1, n);
    crate::text::extend_chars(&mut out, &rest);
    assert(out@ =~= s@.take(first as int) + s@.skip(last + 1));
    Ok(out)
}

pub(crate) fn paren_chars(s: &[char]) -> (r: Result<Vec<char>, ScriptError>)
    ensures
        match r {
            Ok(v) => inside_parens(s@) == Ok::<Seq<char>, ScriptErrorView>(v@),
            Err(e) => inside_parens(s@) == Err::<Seq<char>, ScriptErrorView>(e@),
        },
{
    let first = match first_index_of_exec(s, '(') {
        Some(i) => i,
        None => return Err(ScriptError::NoOpenParen(string_of(s))),
    };
    let last = match last_index_of_exec(s, ')') {
        Some(i) => i,
        None => return Err(ScriptError::NoCloseParen(string_of(s))),
    };
    if first < last {
        Ok(slice_chars(s, first + 1, last))
    } else {
        Err(ScriptError::ParensOutOfOrder(string_of(s)))
    }
}

/// The text with everything from the first `(` to the last `)` removed; the
/// text must hold both.
pub fn remove_paren_contents(str: &str) -> (r: String)
    requires
        without_parens(str@) is Ok,
    ensures
        without_parens(str@) == Ok::<Seq<char>, ScriptErrorView>(r@),
{
    let s = chars_of(str);
    match remove_paren_chars(&s) {
        Ok(v) => string_of(&v),
        Err(_) => unreached(),
    }
}

/// The text between the first `(` and the last `)`; the text must hold both,
/// in that order.
pub fn paren_contents(str: &str) -> (r: String)
    requires
        inside_parens(str@) is Ok,
    ensures
        inside_parens(str@) == Ok::<Seq<char>, ScriptErrorView>(r@),
{
    let s = chars_of(str);
    match paren_chars(&s) {
        Ok(v) => string_of(&v),
        Err(_) => unreached(),
    }
}

// ---------------------------------------------------------------------------
// Locations
// ---------------------------------------------------------------------------

/// Why a finder found no location.
#[derive(Debug, Clone, Copy, PartialEq, Eq, Structural)]
pub enum FinderError {
    Generic,
    NoMatches,
    InvalidOffset,
}

/// The indices of the newlines in `s`, in increasing order.
pub open spec fn newline_positions(s: Seq<char>) -> Seq<int>
    decreases s.len(),
{
    if s.len() == 0 {
        Seq::<int>::empty()
    } else {
        let p = newline_positions(s.drop_last());
        if s.last() == '\n' {
            p.push(s.len() - 1)
        } else {
            p
        }
    }
}

/// Every newline position lies inside the text.
pub proof fn lemma_newline_positions_in_range(s: Seq<char>)
    ensures
        forall|k: int|
            0 <= k < newline_positions(s).len() ==> 0 <= #[trigger] newline_positions(s)[k]
                < s.len(),
    decreases s.len(),
{
    if s.len() > 0 {
        lemma_newline_positions_in_range(s.drop_last());
        let p = newline_positions(s.drop_last());
        assert forall|k: int| 0 <= k < p.len() implies 0 <= #[trigger] p[k] < s.len() by {
            assert(0 <= p[k] < s.drop_last().len());
        }
    }
}

/// The indices of the newlines in `s`, in increasing order.
pub fn newline_indices(s: &[char]) -> (r: Vec<usize>)
    ensures
        r@.len() == newline_positions(s@).len(),
        forall|k: int| 0 <= k < r@.len() ==> r@[k] as int == newline_positions(s@)[k],
        forall|k: int| 0 <= k < r@.len() ==> r@[k] < s@.len(),
{
    let mut r: Vec<usize> = Vec::new();
    let mut i: usize = 0;
    assert(s@.take(0) =~= Seq::<char>::empty());
    while i < s.len()
        invariant
            i <= s@.len(),
            r@.len() == newline_positions(s@.take(i as int)).len(),
            forall|k: int|
                0 <= k < r@.len() ==> r@[k] as int == newline_positions(s@.take(i as int))[k],
            forall|k: int| 0 <= k < r@.len() ==> r@[k] < i,
        decreases s@.len() - i,
    {
        let ghost t = s@.take(i + 1);
        assert(t.drop_last() =~= s@.take(i as int));
        if s[i] == '\n' {
            r.push(i);
        }
        i += 1;
    }
    assert(s@.take(s@.len() as int) =~= s@);
    r
}

/// The value of a location: the location (or why none was found) and the
/// options in force, or the reason the search could not be carried out.
pub type LocationView = Result<(Result<int, FinderError>, Seq<FinderOption>), ScriptErrorView>;

pub open spec fn location_view(
    r: Result<(Result<usize, FinderError>, Vec<FinderOption>), ScriptError>,
) -> LocationView {
    match r {
        Ok((Ok(i), o)) => Ok((Ok(i as int), o@)),
        Ok((Err(e), o)) => Ok((Err(e), o@)),
        Err(e) => Err(e@),
    }
}

pub open spec fn found_at(i: int) -> LocationView {
    Ok((Ok(i), Seq::<FinderOption>::empty()))
}

pub open spec fn not_found(e: FinderError) -> LocationView {
    Ok((Err(e), Seq::<FinderOption>::empty()))
}

pub open spec fn chars_option_view(o: Option<Vec<char>>) -> Option<Seq<char>> {
    match o {
        Some(v) => Some(v@),
        None => None,
    }
}

/// The location a `Regex` finder gives, once its pattern has matched the text
/// `matched` (or nothing): where that text first occurs in `hay`, or the end
/// of that occurrence when the location is after the match.
pub open spec fn regex_location(hay: Seq<char>, matched: Option<Seq<char>>, before: bool) -> LocationView {
    match matched {
        None => not_found(FinderError::NoMatches),
        Some(t) => match find_first(hay, t) {
            None => Err(ScriptErrorView::MatchNotInText),
            Some(i) => found_at(
                if before {
                    i
                } else {
                    i + t.len()
                },
            ),
        },
    }
}

/// The location a `LineRegex` finder gives, once its pattern has matched the
/// text `matched` (or nothing). From the first occurrence of that text, an
/// offset `n >= 0` gives the index of the newline numbered `n` (counting from
/// zero) at or after it; an offset `-n` gives the index of the newline
/// numbered `n` counting back from the last one before it.
pub open spec fn line_location(hay: Seq<char>, matched: Option<Seq<char>>, offset: i32) -> LocationView {
    match matched {
        None => not_found(FinderError::NoMatches),
        Some(t) => match find_first(hay, t) {
            None => Err(ScriptErrorView::MatchNotInText),
            Some(loc) => if offset >= 0 {
                let nl = newline_positions(hay.skip(loc));
                if nl.len() > offset {
                    found_at(nl[offset as int] + loc)
                } else if nl.len() == offset {
                    Err(ScriptErrorView::LineIndexOutOfRange)
                } else {
                    not_found(FinderError::InvalidOffset)
                }
            } else if offset == i32::MIN {
                Err(ScriptErrorView::OffsetOverflow)
            } else {
                let nl = newline_positions(hay.take(loc));
                let k = -offset;
                if nl.len() > k {
                    found_at(nl[nl.len() - 1 - k])
                } else if nl.len() == k {
                    Err(ScriptErrorView::LineIndexOutOfRange)
                } else {
                    not_found(FinderError::InvalidOffset)
                }
            },
        },
    }
}

/// The location that a finder gives in `hay`.
pub open spec fn location(hay: Seq<char>, f: FinderView) -> LocationView
    decreases f,
{
    match f {
        FinderView::Regex(p, before) => if regex_accepts(p) {
            regex_location(hay, regex_first_match(p, hay), before)
        } else {
            Err(ScriptErrorView::InvalidPattern)
        },
        FinderView::LineRegex(p, offset) => if regex_accepts(p) {
            line_location(hay, regex_first_match(p, hay), offset)
        } else {
            Err(ScriptErrorView::InvalidPattern)
        },
        FinderView::LastInSectionOrFallback(first, fallback, opts) => match location(hay, *first) {
            Err(e) => Err(e),
            Ok((Ok(i), _)) => found_at(i),
            Ok((Err(_), _)) => match location(hay, *fallback) {
                Err(e) => Err(e),
                Ok((r, _)) => Ok((r, opts)),
            },
        },
    }
}

fn found_exec(i: usize) -> (r: Result<(Result<usize, FinderError>, Vec<FinderOption>), ScriptError>)
    ensures
        location_view(r) == found_at(i as int),
{
    let v: Vec<FinderOption> = Vec::new();
    assert(v@ =~= Seq::<FinderOption>::empty());
    Ok((Ok(i), v))
}

fn not_found_exec(e: FinderError) -> (r: Result<(Result<usize, FinderError>, Vec<FinderOption>), ScriptError>)
    ensures
        location_view(r) == not_found(e),
{
    let v: Vec<FinderOption> = Vec::new();
    assert(v@ =~= Seq::<FinderOption>::empty());
    Ok((Err(e), v))
}

/// The value of a location that was found.
pub open spec fn found_view(r: (Result<usize, FinderError>, Vec<FinderOption>)) -> (
    Result<int, FinderError>,
    Seq<FinderOption>,
) {
    match r {
        (Ok(i), o) => (Ok(i as int), o@),
        (Err(e), o) => (Err(e), o@),
    }
}

/// No text that occurs in the haystack is reported as missing from it.
pub open spec fn never_missing(r: Result<(Result<usize, FinderError>, Vec<FinderOption>), ScriptError>) -> bool {
    !(r matches Err(e) && e@ == ScriptErrorView::MatchNotInText)
}

fn regex_location_result(hay: &[char], matched: Option<Vec<char>>, before: bool) -> (r: Result<
    (Result<usize, FinderError>, Vec<FinderOption>),
    ScriptError,
>)
    ensures
        location_view(r) == regex_location(hay@, chars_option_view(matched), before),
        (chars_option_view(matched) matches Some(t) ==> contains(hay@, t)) ==> never_missing(r),
{
    match matched {
        None => not_found_exec(FinderError::NoMatches),
        Some(t) => match find_chars(hay, &t) {
            None => Err(ScriptError::MatchNotInText),
            Some(i) => {
                let n = hay.len();
                assert(i + t@.len() <= n);
                if before {
                    found_exec(i)
                } else {
                    found_exec(i + t.len())
                }
            },
        },
    }
}

fn line_location_result(hay: &[char], matched: Option<Vec<char>>, offset: i32) -> (r: Result<
    (Result<usize, FinderError>, Vec<FinderOption>),
    ScriptError,
>)
    ensures
        location_view(r) == line_location(hay@, chars_option_view(matched), offset),
        (chars_option_view(matched) matches Some(t) ==> contains(hay@, t)) ==> never_missing(r),
{
    let t = match matched {
        None => return not_found_exec(FinderError::NoMatches),
        Some(t) => t,
    };
    let loc = match find_chars(hay, &t) {
        None => return Err(ScriptError::MatchNotInText),
        Some(i) => i,
    };
    let n = hay.len();
    if offset >= 0 {
        let hunk = slice_chars(hay, loc, n);
        assert(hunk@ =~= hay@.skip(loc as int));
        let nl = newline_indices(&hunk);
        let off = offset as usize;
        if nl.len() > off {
            found_exec(nl[off] + loc)
        } else if nl.len() == off {
            Err(ScriptError::LineIndexOutOfRange)
        } else {
            not_found_exec(FinderError::InvalidOffset)
        }
    } else if offset == i32::MIN {
        Err(ScriptError::OffsetOverflow)
    } else {
        let hunk = slice_chars(hay, 0, loc);
        assert(hunk@ =~= hay@.take(loc as int));
        let nl = newline_indices(&hunk);
        let k = (-offset) as usize;
        if nl.len() > k {
            found_exec(nl[nl.len() - 1 - k])
        } else if nl.len() == k {
            Err(ScriptError::LineIndexOutOfRange)
        } else {
            not_found_exec(FinderError::InvalidOffset)
        }
    }
}

/// The location given by a `Regex` finder whose pattern matched `matched`
/// (the text of the match, or nothing); the matched text must occur in `hay`.
pub fn regex_location_chars(hay: &[char], matched: Option<Vec<char>>, before: bool) -> (r: (
    Result<usize, FinderError>,
    Vec<FinderOption>,
))
    requires
        regex_location(hay@, chars_option_view(matched), before) is Ok,
    ensures
        regex_location(hay@, chars_option_view(matched), before) == Ok::<
            (Result<int, FinderError>, Seq<FinderOption>),
            ScriptErrorView,
        >(found_view(r)),
{
    match regex_location_result(hay, matched, before) {
        Ok(r) => r,
        Err(_) => unreached(),
    }
}

/// The location given by a `LineRegex` finder whose pattern matched
/// `matched`; the matched text must occur in `hay`, the offset must not be
/// `i32::MIN`, and it must not name the line just past the last newline.
pub fn line_location_chars(hay: &[char], matched: Option<Vec<char>>, offset: i32) -> (r: (
    Result<usize, FinderError>,
    Vec<FinderOption>,
))
    requires
        line_location(hay@, chars_option_view(matched), offset) is Ok,
    ensures
        line_location(hay@, chars_option_view(matched), offset) == Ok::<
            (Result<int, FinderError>, Seq<FinderOption>),
            ScriptErrorView,
        >(found_view(r)),
{
    match line_location_result(hay, matched, offset) {
        Ok(r) => r,
        Err(_) => unreached(),
    }
}

/// The text of the first match of a finder's pattern, or why the pattern
/// cannot be used.
fn match_text(pattern: &String, hay: &[char]) -> (r: Result<Option<Vec<char>>, ScriptError>)
    ensures
        r is Err <==> !regex_accepts(pattern@),
        r matches Err(e) ==> e@ == ScriptErrorView::InvalidPattern,
        r matches Ok(m) ==> chars_option_view(m) == regex_first_match(pattern@, hay@),
        r matches Ok(Some(m)) ==> contains(hay@, m@),
{
    let compiled = match compile_pattern(pattern.as_str()) {
        Ok(p) => p,
        Err(_) => return Err(ScriptError::InvalidPattern),
    };
    let hay_text = string_of(hay);
    match first_match_text(&compiled, hay_text.as_str()) {
        None => Ok(None),
        Some(m) => Ok(Some(chars_of(m.as_str()))),
    }
}

/// The location a finder gives in the characters `hay`.
pub(crate) fn locate_result(hay: &[char], finder: &Finder) -> (r: Result<
    (Result<usize, FinderError>, Vec<FinderOption>),
    ScriptError,
>)
    ensures
        location_view(r) == location(hay@, finder@),
        never_missing(r),
    decreases finder,
{
    match finder {
        Finder::Regex(pattern, before) => {
            let m = match_text(pattern, hay)?;
            regex_location_result(hay, m, *before)
        },
        Finder::LineRegex(pattern, offset) => {
            let m = match_text(pattern, hay)?;
            line_location_result(hay, m, *offset)
        },
        Finder::LastInSectionOrFallback(first, fallback, opts) => {
            match locate_result(hay, first) {
                Err(e) => Err(e),
                Ok((Ok(i), _)) => found_exec(i),
                Ok((Err(_), _)) => match locate_result(hay, fallback) {
                    Err(e) => Err(e),
                    Ok((r, _)) => Ok((r, opts.clone())),
                },
            }
        },
    }
}

/// The byte offset, in UTF-8, of the character at index `k` of `s`.
pub open spec fn byte_offset(s: Seq<char>, k: int) -> usize {
    vstd::utf8::encode_utf8(s.take(k)).len() as usize
}

/// A location with its character index turned into a byte offset into `s`.
pub open spec fn location_in_bytes(s: Seq<char>, l: LocationView) -> LocationView {
    match l {
        Ok((Ok(k), o)) => Ok((Ok(byte_offset(s, k) as int), o)),
        _ => l,
    }
}

fn byte_location_result(str: &str, finder: &Finder) -> (r: Result<
    (Result<usize, FinderError>, Vec<FinderOption>),
    ScriptError,
>)
    ensures
        location_view(r) == location_in_bytes(str@, location(str@, finder@)),
        never_missing(r),
{
    let hay = chars_of(str);
    proof {
        lemma_location_in_range(hay@, finder@);
    }
    match locate_result(&hay, finder) {
        Ok((Ok(k), o)) => {
            let prefix = string_of(&slice_chars(&hay, 0, k));
            assert(prefix@ =~= hay@.take(k as int));
            Ok((Ok(prefix.as_str().len()), o))
        },
        other => other,
    }
}

/// The location that `finder` gives in `str`, as a byte offset, with the
/// finder options in force there. The search must be one that can be carried
/// out: the patterns compile, and a line offset names a line that exists or
/// lies beyond the last newline by more than one.
pub fn get_location_in_string(str: &str, finder: &Finder) -> (r: (
    Result<usize, FinderError>,
    Vec<FinderOption>,
))
    requires
        location(str@, finder@) is Ok,
    ensures
        location_in_bytes(str@, location(str@, finder@)) == Ok::<
            (Result<int, FinderError>, Seq<FinderOption>),
            ScriptErrorView,
        >(found_view(r)),
{
    match byte_location_result(str, finder) {
        Ok(r) => r,
        Err(_) => unreached(),
    }
}

/// `get_location_in_string`, or the reason the search cannot be carried out;
/// a matched text is never reported missing from the text searched.
pub fn try_get_location_in_string(str: &str, finder: &Finder) -> (r: Result<
    (Result<usize, FinderError>, Vec<FinderOption>),
    ScriptError,
>)
    ensures
        location_view(r) == location_in_bytes(str@, location(str@, finder@)),
        never_missing(r),
{
    match byte_location_result(str, finder) {
        Ok(_) => Ok(get_location_in_string(str, finder)),
        Err(e) => Err(e),
    }
}

/// A location that a finder gives lies within the text searched.
pub proof fn lemma_location_in_range(hay: Seq<char>, f: FinderView)
    ensures
        location(hay, f) matches Ok((Ok(i), _)) ==> 0 <= i <= hay.len(),
    decreases f,
{
    match f {
        FinderView::Regex(p, before) => {
            if let Some(t) = regex_first_match(p, hay) {
                crate::text::lemma_find_first_occurs(hay, t);
            }
        },
        FinderView::LineRegex(p, offset) => {
            if let Some(t) = regex_first_match(p, hay) {
                crate::text::lemma_find_first_occurs(hay, t);
                if let Some(loc) = find_first(hay, t) {
                    lemma_newline_positions_in_range(hay.skip(loc));
                    lemma_newline_positions_in_range(hay.take(loc));
                }
            }
        },
        FinderView::LastInSectionOrFallback(first, fallback, opts) => {
            lemma_location_in_range(hay, *first);
            lemma_location_in_range(hay, *fallback);
        },
    }
}

} // verus!
