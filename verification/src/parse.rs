//! Reading a script line by line.
//!
//! A script is run as a sequence of steps: each step reads one line. A `def`
//! line asks for the value of a definition, which is supplied before the next
//! step; an insertion line is handed back to be carried out on its file.
use vstd::prelude::*;
use crate::command_parser::{definitions_view, insert_line_spec, parse_insert_result};
use crate::error::{ScriptError, ScriptErrorView};
use crate::model::{
    Definition, DefinitionView, LineCommand, LineCommandView, SupportedLanguage,
};
use crate::text::{
    chars_equal, chars_of, lines_exec, lines_of, lowercase, lowercase_chars, starts_with,
    starts_with_exec, string_of, trim, trim_chars, views, words_exec, words_of,
};

verus! {

#[verifier::external_type_specification]
#[verifier::external_body]
pub struct ExShellParseError(shell_words::ParseError);

/// The views of a sequence of strings.
pub open spec fn string_views(s: Seq<String>) -> Seq<Seq<char>> {
    s.map_values(|x: String| x@)
}

/// What `shell_words::split` returns: the words of a command line after
/// quote removal, or `None` where a quote is left open.
pub uninterp spec fn shell_split(s: Seq<char>) -> Option<Seq<Seq<char>>>;

/// `shell_words::split`: its result is named by `shell_split`.
#[verifier::external_body]
fn split_words(s: &str) -> (r: Result<Vec<String>, shell_words::ParseError>)
    ensures
        r is Err <==> shell_split(s@) is None,
        r matches Ok(w) ==> shell_split(s@) == Some(string_views(w@)),
{
    shell_words::split(s)
}

/// A definition whose value is still to be asked for: its key, and the
/// prompt to show.
#[derive(Debug, PartialEq)]
pub struct DefinitionRequest {
    pub key: String,
    pub prompt: String,
}

pub struct DefinitionRequestView {
    pub key: Seq<char>,
    pub prompt: Seq<char>,
}

impl View for DefinitionRequest {
    type V = DefinitionRequestView;

    open spec fn view(&self) -> DefinitionRequestView {
        DefinitionRequestView { key: self.key@, prompt: self.prompt@ }
    }
}

/// How the words of a `def` line are read: `def key prompt`.
pub open spec fn definition_request_spec(words: Option<Seq<Seq<char>>>, idx: usize) -> Result<
    DefinitionRequestView,
    ScriptErrorView,
> {
    match words {
        None => Err(ScriptErrorView::DefinitionSplitFailed),
        Some(w) => if w.len() != 3 {
            Err(ScriptErrorView::MalformedDef(idx))
        } else {
            Ok(DefinitionRequestView { key: w[1], prompt: w[2] })
        },
    }
}

fn definition_request_result(words: Option<Vec<String>>, idx: usize) -> (r: Result<
    DefinitionRequest,
    ScriptError,
>)
    ensures
        match r {
            Ok(d) => definition_request_spec(
                match words {
                    Some(w) => Some(string_views(w@)),
                    None => None,
                },
                idx,
            ) == Ok::<DefinitionRequestView, ScriptErrorView>(d@),
            Err(e) => definition_request_spec(
                match words {
                    Some(w) => Some(string_views(w@)),
                    None => None,
                },
                idx,
            ) == Err::<DefinitionRequestView, ScriptErrorView>(e@),
        },
{
    match words {
        None => Err(ScriptError::DefinitionSplitFailed),
        Some(w) => {
            if w.len() != 3 {
                return Err(ScriptError::MalformedDef(idx));
            }
            let key = w[1].clone();
            let prompt = w[2].clone();
            assert(string_views(w@)[1] == w@[1]@);
            assert(string_views(w@)[2] == w@[2]@);
            Ok(DefinitionRequest { key, prompt })
        },
    }
}

fn parse_def_result(def_command: &str, idx: usize) -> (r: Result<DefinitionRequest, ScriptError>)
    ensures
        match r {
            Ok(d) => definition_request_spec(shell_split(def_command@), idx) == Ok::<
                DefinitionRequestView,
                ScriptErrorView,
            >(d@),
            Err(e) => definition_request_spec(shell_split(def_command@), idx) == Err::<
                DefinitionRequestView,
                ScriptErrorView,
            >(e@),
        },
{
    let words = match split_words(def_command) {
        Ok(w) => Some(w),
        Err(_) => None,
    };
    definition_request_result(words, idx)
}

/// The definition made from a request and the value entered for it, which is
/// trimmed.
pub fn complete_definition(request: DefinitionRequest, entered: &str) -> (r: LineCommand)
    ensures
        r@ == LineCommandView::Def(DefinitionView { key: request.key@, value: trim(entered@) }),
{
    let chars = chars_of(entered);
    let value = trim_chars(&chars);
    LineCommand::Def(Definition { key: request.key, value: string_of(&value) })
}

/// How a `lang` line is read: two words, the second naming Swift in any
/// letter case.
pub open spec fn lang_spec(s: Seq<char>, idx: usize) -> Result<LineCommandView, ScriptErrorView> {
    let w = words_of(s);
    if w.len() != 2 {
        Err(ScriptErrorView::MalformedLang(idx))
    } else if lowercase(w[1]) == "swift"@ {
        Ok(LineCommandView::Lang(SupportedLanguage::Swift))
    } else {
        Err(ScriptErrorView::UnsupportedLanguage(w[1]))
    }
}

fn parse_lang_result(lang_command: &[char], idx: usize) -> (r: Result<LineCommand, ScriptError>)
    ensures
        match r {
            Ok(c) => lang_spec(lang_command@, idx) == Ok::<LineCommandView, ScriptErrorView>(c@),
            Err(e) => lang_spec(lang_command@, idx) == Err::<LineCommandView, ScriptErrorView>(
                e@,
            ),
        },
{
    let parsed = words_exec(lang_command);
    if parsed.len() != 2 {
        return Err(ScriptError::MalformedLang(idx));
    }
    assert(views(parsed@)[1] == parsed@[1]@);
    let lowered = lowercase_chars(&parsed[1]);
    if chars_equal(&lowered, &chars_of("swift")) {
        Ok(LineCommand::Lang(SupportedLanguage::Swift))
    } else {
        Err(ScriptError::UnsupportedLanguage(string_of(&parsed[1])))
    }
}

/// A line read: either a command, or a definition whose value must be asked for.
#[derive(Debug, PartialEq)]
pub enum ParsedLine {
    Command(LineCommand),
    AskValue(DefinitionRequest),
}

pub enum ParsedLineView {
    Command(LineCommandView),
    AskValue(DefinitionRequestView),
}

impl View for ParsedLine {
    type V = ParsedLineView;

    open spec fn view(&self) -> ParsedLineView {
        match self {
            ParsedLine::Command(c) => ParsedLineView::Command(c@),
            ParsedLine::AskValue(d) => ParsedLineView::AskValue(d@),
        }
    }
}

/// How a line is read: lines starting with `def` define, lines starting with
/// `lang` set the language, and every other line is an insertion, which
/// needs a language.
pub open spec fn line_spec(
    line: Seq<char>,
    lang: Option<SupportedLanguage>,
    defs: Seq<DefinitionView>,
    idx: usize,
) -> Result<ParsedLineView, ScriptErrorView> {
    if starts_with(line, "def"@) {
        match definition_request_spec(shell_split(line), idx) {
            Err(e) => Err(e),
            Ok(d) => Ok(ParsedLineView::AskValue(d)),
        }
    } else if starts_with(line, "lang"@) {
        match lang_spec(line, idx) {
            Err(e) => Err(e),
            Ok(c) => Ok(ParsedLineView::Command(c)),
        }
    } else if lang is None {
        Err(ScriptErrorView::LanguageNotDefined)
    } else {
        match insert_line_spec(line, defs, idx) {
            Err(e) => Err(e),
            Ok(c) => Ok(ParsedLineView::Command(c)),
        }
    }
}

fn parse_line_result(
    line: &[char],
    lang: &Option<SupportedLanguage>,
    definitions: &Vec<Definition>,
    idx: usize,
) -> (r: Result<ParsedLine, ScriptError>)
    ensures
        match r {
            Ok(p) => line_spec(line@, *lang, definitions_view(definitions@), idx) == Ok::<
                ParsedLineView,
                ScriptErrorView,
            >(p@),
            Err(e) => line_spec(line@, *lang, definitions_view(definitions@), idx) == Err::<
                ParsedLineView,
                ScriptErrorView,
            >(e@),
        },
{
    if starts_with_exec(line, &chars_of("def")) {
        let text = string_of(line);
        let request = parse_def_result(text.as_str(), idx)?;
        Ok(ParsedLine::AskValue(request))
    } else if starts_with_exec(line, &chars_of("lang")) {
        let command = parse_lang_result(line, idx)?;
        Ok(ParsedLine::Command(command))
    } else {
        match lang {
            None => Err(ScriptError::LanguageNotDefined),
            Some(_) => {
                let command = parse_insert_result(line, definitions, idx)?;
                Ok(ParsedLine::Command(command))
            },
        }
    }
}


// ---------------------------------------------------------------------------
// The readers, on lines that are well formed, and their checked forms
// ---------------------------------------------------------------------------

/// The value of an optional list of words.
pub open spec fn words_option_view(words: Option<Vec<String>>) -> Option<Seq<Seq<char>>> {
    match words {
        Some(w) => Some(string_views(w@)),
        None => None,
    }
}

/// Reads the words of a `def` line (`None` where the line could not be
/// split); there must be three of them.
pub fn definition_request(words: Option<Vec<String>>, idx: usize) -> (r: DefinitionRequest)
    requires
        definition_request_spec(words_option_view(words), idx) is Ok,
    ensures
        definition_request_spec(words_option_view(words), idx) == Ok::<
            DefinitionRequestView,
            ScriptErrorView,
        >(r@),
{
    match definition_request_result(words, idx) {
        Ok(d) => d,
        Err(_) => unreached(),
    }
}

/// Reads a `def` line into the request for its value; the line must split
/// into three words.
pub fn parse_def(def_command: &str, idx: usize) -> (r: DefinitionRequest)
    requires
        definition_request_spec(shell_split(def_command@), idx) is Ok,
    ensures
        definition_request_spec(shell_split(def_command@), idx) == Ok::<
            DefinitionRequestView,
            ScriptErrorView,
        >(r@),
{
    match parse_def_result(def_command, idx) {
        Ok(d) => d,
        Err(_) => unreached(),
    }
}

/// `parse_def`, or why the line cannot be read.
pub fn try_parse_def(def_command: &str, idx: usize) -> (r: Result<DefinitionRequest, ScriptError>)
    ensures
        match r {
            Ok(d) => definition_request_spec(shell_split(def_command@), idx) == Ok::<
                DefinitionRequestView,
                ScriptErrorView,
            >(d@),
            Err(e) => definition_request_spec(shell_split(def_command@), idx) == Err::<
                DefinitionRequestView,
                ScriptErrorView,
            >(e@),
        },
{
    match parse_def_result(def_command, idx) {
        Ok(_) => Ok(parse_def(def_command, idx)),
        Err(e) => Err(e),
    }
}

/// Reads a `lang` line, which must name Swift.
pub fn parse_lang(lang_command: &[char], idx: usize) -> (r: LineCommand)
    requires
        lang_spec(lang_command@, idx) is Ok,
    ensures
        lang_spec(lang_command@, idx) == Ok::<LineCommandView, ScriptErrorView>(r@),
{
    match parse_lang_result(lang_command, idx) {
        Ok(c) => c,
        Err(_) => unreached(),
    }
}

/// `parse_lang`, or why the line cannot be read.
pub fn try_parse_lang(lang_command: &[char], idx: usize) -> (r: Result<LineCommand, ScriptError>)
    ensures
        match r {
            Ok(c) => lang_spec(lang_command@, idx) == Ok::<LineCommandView, ScriptErrorView>(c@),
            Err(e) => lang_spec(lang_command@, idx) == Err::<LineCommandView, ScriptErrorView>(
                e@,
            ),
        },
{
    match parse_lang_result(lang_command, idx) {
        Ok(_) => Ok(parse_lang(lang_command, idx)),
        Err(e) => Err(e),
    }
}

/// Reads one line of a script, which must be well formed; an insertion line
/// needs a language.
pub fn parse_line(
    line: &[char],
    lang: &Option<SupportedLanguage>,
    definitions: &Vec<Definition>,
    idx: usize,
) -> (r: ParsedLine)
    requires
        line_spec(line@, *lang, definitions_view(definitions@), idx) is Ok,
    ensures
        line_spec(line@, *lang, definitions_view(definitions@), idx) == Ok::<
            ParsedLineView,
            ScriptErrorView,
        >(r@),
{
    match parse_line_result(line, lang, definitions, idx) {
        Ok(p) => p,
        Err(_) => unreached(),
    }
}

/// `parse_line`, or why the line cannot be read.
pub fn try_parse_line(
    line: &[char],
    lang: &Option<SupportedLanguage>,
    definitions: &Vec<Definition>,
    idx: usize,
) -> (r: Result<ParsedLine, ScriptError>)
    ensures
        match r {
            Ok(p) => line_spec(line@, *lang, definitions_view(definitions@), idx) == Ok::<
                ParsedLineView,
                ScriptErrorView,
            >(p@),
            Err(e) => line_spec(line@, *lang, definitions_view(definitions@), idx) == Err::<
                ParsedLineView,
                ScriptErrorView,
            >(e@),
        },
{
    match parse_line_result(line, lang, definitions, idx) {
        Ok(_) => Ok(parse_line(line, lang, definitions, idx)),
        Err(e) => Err(e),
    }
}

// ---------------------------------------------------------------------------
// Running a script
// ---------------------------------------------------------------------------

/// A script being run: its lines, the index of the next line to read, the
/// definitions made so far, and the language, once a `lang` line has set it.
pub struct ScriptRun {
    lines: Vec<Vec<char>>,
    next: usize,
    definitions: Vec<Definition>,
    language: Option<SupportedLanguage>,
}

pub struct ScriptRunView {
    pub lines: Seq<Seq<char>>,
    pub next: int,
    pub definitions: Seq<DefinitionView>,
    pub language: Option<SupportedLanguage>,
}

impl View for ScriptRun {
    type V = ScriptRunView;

    closed spec fn view(&self) -> ScriptRunView {
        ScriptRunView {
            lines: views(self.lines@),
            next: self.next as int,
            definitions: definitions_view(self.definitions@),
            language: self.language,
        }
    }
}

/// What a step of a script asks the caller to do.
#[derive(Debug, PartialEq)]
pub enum ScriptAction {
    /// Ask for the value of a definition, then hand it to `ScriptRun::define`.
    Ask(DefinitionRequest),
    /// Carry out an insertion line, in the given language.
    Execute(LineCommand, SupportedLanguage),
    /// Nothing: the line only changed the state of the run.
    Continue,
    /// Every line has been read.
    Finished,
}

pub enum ScriptActionView {
    Ask(DefinitionRequestView),
    Execute(LineCommandView, SupportedLanguage),
    Continue,
    Finished,
}

impl View for ScriptAction {
    type V = ScriptActionView;

    open spec fn view(&self) -> ScriptActionView {
        match self {
            ScriptAction::Ask(d) => ScriptActionView::Ask(d@),
            ScriptAction::Execute(c, l) => ScriptActionView::Execute(c@, *l),
            ScriptAction::Continue => ScriptActionView::Continue,
            ScriptAction::Finished => ScriptActionView::Finished,
        }
    }
}

/// The state of a run after its next line has been read.
pub open spec fn advanced(st: ScriptRunView) -> ScriptRunView {
    ScriptRunView { next: st.next + 1, ..st }
}

/// One step of a script: the next line is read with the definitions and the
/// language in force; a `lang` line sets the language, a `def` line asks for
/// a value, and an insertion line is handed back with the language.
pub open spec fn step_spec(st: ScriptRunView) -> (Result<ScriptActionView, ScriptErrorView>, ScriptRunView) {
    if st.next >= st.lines.len() {
        (Ok(ScriptActionView::Finished), st)
    } else {
        let after = advanced(st);
        match line_spec(st.lines[st.next], st.language, st.definitions, st.next as usize) {
            Err(e) => (Err(e), after),
            Ok(ParsedLineView::AskValue(d)) => (Ok(ScriptActionView::Ask(d)), after),
            Ok(ParsedLineView::Command(LineCommandView::Lang(l))) => (
                Ok(ScriptActionView::Continue),
                ScriptRunView { language: Some(l), ..after },
            ),
            Ok(ParsedLineView::Command(LineCommandView::Def(d))) => (
                Ok(ScriptActionView::Continue),
                ScriptRunView { definitions: st.definitions.push(d), ..after },
            ),
            Ok(ParsedLineView::Command(LineCommandView::Empty)) => (
                Ok(ScriptActionView::Continue),
                after,
            ),
            Ok(ParsedLineView::Command(c)) => (
                Ok(ScriptActionView::Execute(c, st.language.unwrap())),
                after,
            ),
        }
    }
}

pub open spec fn action_result_view(r: Result<ScriptAction, ScriptError>) -> Result<
    ScriptActionView,
    ScriptErrorView,
> {
    match r {
        Ok(a) => Ok(a@),
        Err(e) => Err(e@),
    }
}

impl ScriptRun {
    /// The definitions made so far.
    pub fn definitions(&self) -> (r: &Vec<Definition>)
        ensures
            definitions_view(r@) == self@.definitions,
    {
        &self.definitions
    }

    /// The language in force, once set.
    pub fn language(&self) -> (r: Option<SupportedLanguage>)
        ensures
            r == self@.language,
    {
        self.language
    }

    /// Whether the next step can be taken, or why it cannot.
    pub fn check_step(&self) -> (r: Result<(), ScriptError>)
        ensures
            r is Ok <==> step_spec(self@).0 is Ok,
            r matches Err(e) ==> step_spec(self@).0 == Err::<ScriptActionView, ScriptErrorView>(
                e@,
            ),
    {
        if self.next >= self.lines.len() {
            return Ok(());
        }
        let idx = self.next;
        assert(views(self.lines@)[idx as int] == self.lines@[idx as int]@);
        match parse_line_result(&self.lines[idx], &self.language, &self.definitions, idx) {
            Ok(_) => Ok(()),
            Err(e) => Err(e),
        }
    }

    /// Reads the next line of the script, which must be one that can be read
    /// with the definitions and the language in force.
    pub fn step(&mut self) -> (r: ScriptAction)
        requires
            step_spec(old(self)@).0 is Ok,
        ensures
            final(self)@ == step_spec(old(self)@).1,
            step_spec(old(self)@).0 == Ok::<ScriptActionView, ScriptErrorView>(r@),
    {
        if self.next >= self.lines.len() {
            return ScriptAction::Finished;
        }
        let idx = self.next;
        assert(views(self.lines@)[idx as int] == self.lines@[idx as int]@);
        let parsed = parse_line_result(&self.lines[idx], &self.language, &self.definitions, idx);
        self.next = idx + 1;
        match parsed {
            Err(_) => unreached(),
            Ok(ParsedLine::AskValue(d)) => ScriptAction::Ask(d),
            Ok(ParsedLine::Command(LineCommand::Lang(l))) => {
                self.language = Some(l);
                ScriptAction::Continue
            },
            Ok(ParsedLine::Command(LineCommand::Def(d))) => {
                self.definitions.push(d);
                assert(definitions_view(self.definitions@) =~= definitions_view(
                    old(self).definitions@,
                ).push(d@));
                ScriptAction::Continue
            },
            Ok(ParsedLine::Command(LineCommand::Empty)) => ScriptAction::Continue,
            Ok(ParsedLine::Command(c)) => {
                match self.language {
                    Some(l) => ScriptAction::Execute(c, l),
                    None => unreached(),
                }
            },
        }
    }

    /// `step`, or why the next line cannot be read; then the run is left as
    /// it was.
    pub fn try_step(&mut self) -> (r: Result<ScriptAction, ScriptError>)
        ensures
            r is Ok ==> final(self)@ == step_spec(old(self)@).1,
            r is Err ==> final(self)@ == old(self)@,
            action_result_view(r) == step_spec(old(self)@).0,
    {
        match self.check_step() {
            Ok(()) => Ok(self.step()),
            Err(e) => Err(e),
        }
    }

    /// Adds the definition asked for, with the value entered (trimmed).
    pub fn define(&mut self, request: DefinitionRequest, entered: &str)
        ensures
            final(self)@ == (ScriptRunView {
                definitions: old(self)@.definitions.push(
                    (DefinitionView { key: request@.key, value: trim(entered@) }),
                ),
                ..old(self)@
            }),
    {
        let command = complete_definition(request, entered);
        match command {
            LineCommand::Def(d) => {
                self.definitions.push(d);
                assert(definitions_view(self.definitions@) =~= definitions_view(
                    old(self).definitions@,
                ).push(d@));
            },
            _ => {},
        }
    }
}

/// Starts a run of a script: its lines, each keeping its newline, are read in
/// order from the first, with no definitions and no language.
pub fn parse_script(script_contents: &str) -> (r: ScriptRun)
    ensures
        r@ == (ScriptRunView {
            lines: lines_of(script_contents@),
            next: 0,
            definitions: Seq::<DefinitionView>::empty(),
            language: None,
        }),
{
    let text = chars_of(script_contents);
    let lines = lines_exec(&text);
    let run = ScriptRun { lines, next: 0, definitions: Vec::new(), language: None };
    assert(definitions_view(run.definitions@) =~= Seq::<DefinitionView>::empty());
    run
}

} // verus!
