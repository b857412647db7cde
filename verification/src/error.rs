//! The ways in which a script is refused.
use vstd::prelude::*;

verus! {

/// Why a script, a line of it, or an insertion cannot be carried out.
#[derive(Debug, PartialEq)]
pub enum ScriptError {
    /// A command has no `(`: the text that was parsed.
    NoOpenParen(String),
    /// A command has no `)`: the text that was parsed.
    NoCloseParen(String),
    /// The last `)` of a command stands before its first `(`: the text.
    ParensOutOfOrder(String),
    /// Parentheses nest deeper, or close further, than a 16-bit counter holds.
    NestingTooDeep,
    /// An insertion line has fewer than three `;`-separated parts: the line index.
    NotEnoughInsertArguments(usize),
    /// An insertion line has finders but no command part: the line index.
    MissingInsertCommand(usize),
    /// `EnumCaseWithRaw` did not get exactly two arguments: the line index.
    WrongCommandArgumentCount(usize),
    /// Unknown insertion command: its name and the line index.
    CommandNotFound(String, usize),
    /// `camelCase` without an argument.
    CamelCaseWithoutArgument,
    /// Unknown command inside an argument: its name.
    InvalidCommand(String),
    /// An argument holds `$` but does not start with it.
    MisplacedDollar,
    /// `$key` names no definition: the key.
    NoDefinition(String),
    /// A finder has fewer than two arguments: its name and the line index.
    NotEnoughFinderArguments(String, usize),
    /// The offset of `LineRegex` is not an `i32`: the line index.
    ExpectedInteger(usize),
    /// The flag of `Regex` is not a `bool`: the line index.
    ExpectedBoolean(usize),
    /// A finder pattern is not enclosed in double quotes.
    UnquotedPattern,
    /// Unknown finder: the line index and its name.
    InvalidFinder(usize, String),
    /// Unknown finder option: the option and the line index.
    InvalidFinderOption(String, usize),
    /// A `def` line cannot be split into words.
    DefinitionSplitFailed,
    /// A `def` line does not have three words: the line index.
    MalformedDef(usize),
    /// A `lang` line does not have two words: the line index.
    MalformedLang(usize),
    /// The language named by a `lang` line: the name.
    UnsupportedLanguage(String),
    /// An insertion line comes before any `lang` line.
    LanguageNotDefined,
    /// A finder pattern is not a regular expression that compiles.
    InvalidPattern,
    /// The matched text could not be found in the text searched.
    MatchNotInText,
    /// A line offset names a line just past the last newline.
    LineIndexOutOfRange,
    /// A line offset of `i32::MIN` cannot be negated.
    OffsetOverflow,
    /// A finder found no location.
    NoMatch,
    /// No non-empty line stands before the insertion point.
    NoPreviousLine,
    /// Only insertion commands are carried out.
    NotAnInsert,
}

/// The value of a `ScriptError`, its texts taken as characters.
pub enum ScriptErrorView {
    NoOpenParen(Seq<char>),
    NoCloseParen(Seq<char>),
    ParensOutOfOrder(Seq<char>),
    NestingTooDeep,
    NotEnoughInsertArguments(usize),
    MissingInsertCommand(usize),
    WrongCommandArgumentCount(usize),
    CommandNotFound(Seq<char>, usize),
    CamelCaseWithoutArgument,
    InvalidCommand(Seq<char>),
    MisplacedDollar,
    NoDefinition(Seq<char>),
    NotEnoughFinderArguments(Seq<char>, usize),
    ExpectedInteger(usize),
    ExpectedBoolean(usize),
    UnquotedPattern,
    InvalidFinder(usize, Seq<char>),
    InvalidFinderOption(Seq<char>, usize),
    DefinitionSplitFailed,
    MalformedDef(usize),
    MalformedLang(usize),
    UnsupportedLanguage(Seq<char>),
    LanguageNotDefined,
    InvalidPattern,
    MatchNotInText,
    LineIndexOutOfRange,
    OffsetOverflow,
    NoMatch,
    NoPreviousLine,
    NotAnInsert,
}

impl View for ScriptError {
    type V = ScriptErrorView;

    open spec fn view(&self) -> ScriptErrorView {
        match self {
            ScriptError::NoOpenParen(s) => ScriptErrorView::NoOpenParen(s@),
            ScriptError::NoCloseParen(s) => ScriptErrorView::NoCloseParen(s@),
            ScriptError::ParensOutOfOrder(s) => ScriptErrorView::ParensOutOfOrder(s@),
            ScriptError::NestingTooDeep => ScriptErrorView::NestingTooDeep,
            ScriptError::NotEnoughInsertArguments(i) => ScriptErrorView::NotEnoughInsertArguments(
                *i,
            ),
            ScriptError::MissingInsertCommand(i) => ScriptErrorView::MissingInsertCommand(*i),
            ScriptError::WrongCommandArgumentCount(i) => ScriptErrorView::WrongCommandArgumentCount(
                *i,
            ),
            ScriptError::CommandNotFound(s, i) => ScriptErrorView::CommandNotFound(s@, *i),
            ScriptError::CamelCaseWithoutArgument => ScriptErrorView::CamelCaseWithoutArgument,
            ScriptError::InvalidCommand(s) => ScriptErrorView::InvalidCommand(s@),
            ScriptError::MisplacedDollar => ScriptErrorView::MisplacedDollar,
            ScriptError::NoDefinition(s) => ScriptErrorView::NoDefinition(s@),
            ScriptError::NotEnoughFinderArguments(s, i) => ScriptErrorView::NotEnoughFinderArguments(
                s@,
                *i,
            ),
            ScriptError::ExpectedInteger(i) => ScriptErrorView::ExpectedInteger(*i),
            ScriptError::ExpectedBoolean(i) => ScriptErrorView::ExpectedBoolean(*i),
            ScriptError::UnquotedPattern => ScriptErrorView::UnquotedPattern,
            ScriptError::InvalidFinder(i, s) => ScriptErrorView::InvalidFinder(*i, s@),
            ScriptError::InvalidFinderOption(s, i) => ScriptErrorView::InvalidFinderOption(s@, *i),
            ScriptError::DefinitionSplitFailed => ScriptErrorView::DefinitionSplitFailed,
            ScriptError::MalformedDef(i) => ScriptErrorView::MalformedDef(*i),
            ScriptError::MalformedLang(i) => ScriptErrorView::MalformedLang(*i),
            ScriptError::UnsupportedLanguage(s) => ScriptErrorView::UnsupportedLanguage(s@),
            ScriptError::LanguageNotDefined => ScriptErrorView::LanguageNotDefined,
            ScriptError::InvalidPattern => ScriptErrorView::InvalidPattern,
            ScriptError::MatchNotInText => ScriptErrorView::MatchNotInText,
            ScriptError::LineIndexOutOfRange => ScriptErrorView::LineIndexOutOfRange,
            ScriptError::OffsetOverflow => ScriptErrorView::OffsetOverflow,
            ScriptError::NoMatch => ScriptErrorView::NoMatch,
            ScriptError::NoPreviousLine => ScriptErrorView::NoPreviousLine,
            ScriptError::NotAnInsert => ScriptErrorView::NotAnInsert,
        }
    }
}

} // verus!
