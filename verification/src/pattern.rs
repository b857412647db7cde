//! Regular expressions, compiled and searched by the `regex` crate.
use vstd::prelude::*;

verus! {

#[verifier::external_type_specification]
#[verifier::external_body]
pub struct ExRegex(regex::Regex);

#[verifier::external_type_specification]
#[verifier::external_body]
pub struct ExRegexError(regex::Error);

/// Whether `regex::Regex::new` accepts the pattern: its syntax is valid and
/// the compiled program stays within the default size limit.
pub uninterp spec fn regex_accepts(pattern: Seq<char>) -> bool;

/// The text of the leftmost-first match of `pattern` in `haystack`, as
/// `regex::Regex::find` reports it.
pub uninterp spec fn regex_first_match(pattern: Seq<char>, haystack: Seq<char>) -> Option<
    Seq<char>,
>;

/// A compiled regular expression together with the pattern it was compiled
/// from; only `compile_pattern` makes one.
pub(crate) struct CompiledPattern {
    source: String,
    re: regex::Regex,
}

impl View for CompiledPattern {
    type V = Seq<char>;

    closed spec fn view(&self) -> Seq<char> {
        self.source@
    }
}

/// `regex::Regex::new`: succeeds exactly when the pattern is accepted
/// (`regex_accepts`); the compiled expression keeps the pattern it came from.
#[verifier::external_body]
pub(crate) fn compile_pattern(pattern: &str) -> (r: Result<CompiledPattern, regex::Error>)
    ensures
        r is Ok <==> regex_accepts(pattern@),
        r matches Ok(p) ==> p@ == pattern@,
{
    match regex::Regex::new(pattern) {
        Ok(re) => Ok(CompiledPattern { source: pattern.to_string(), re }),
        Err(e) => Err(e),
    }
}

/// `regex::Regex::find`, with `Match::as_str`: the text of the first match,
/// which is named by `regex_first_match`. As the crate documents, the
/// matched text is a slice of the haystack, so it occurs in it.
#[verifier::external_body]
pub(crate) fn first_match_text(p: &CompiledPattern, haystack: &str) -> (r: Option<String>)
    ensures
        r is None <==> regex_first_match(p@, haystack@) is None,
        r matches Some(m) ==> regex_first_match(p@, haystack@) == Some(m@),
        r matches Some(m) ==> crate::text::contains(haystack@, m@),
{
    p.re.find(haystack).map(|m| m.as_str().to_string())
}

} // verus!
