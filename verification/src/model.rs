//! The commands of a script, and how they are described in messages.
use vstd::prelude::*;
use crate::text::{chars_of, extend_chars, i32_chars, i32_text, string_of};

verus! {

/// One line of a script, parsed.
#[derive(Debug, PartialEq)]
pub enum LineCommand {
    /// File name, where to start looking, where to make the insertion, what to insert.
    Insert(String, Finder, Finder, InsertCommand),
    Lang(SupportedLanguage),
    Def(Definition),
    Empty,
}

/// A named value that insertion commands refer to as `$key`.
#[derive(Debug, Clone, PartialEq)]
pub struct Definition {
    pub key: String,
    pub value: String,
}

#[derive(Debug, Clone, Copy, PartialEq, Eq, Structural)]
pub enum SupportedLanguage {
    Swift,
}

/// What an insertion writes.
#[derive(Debug, PartialEq)]
pub enum InsertCommand {
    /// An enum case with a raw value: key, raw.
    EnumCaseWithRaw(String, String),
}

/// How a location in a text is found.
#[derive(Debug, PartialEq)]
pub enum Finder {
    /// Pattern; then whether the location is before (`true`) or after the match.
    Regex(String, bool),
    /// Pattern; then the line offset from the match.
    LineRegex(String, i32),
    /// A finder, a fallback finder, and the options that apply when the fallback is used.
    LastInSectionOrFallback(Box<Finder>, Box<Finder>, Vec<FinderOption>),
}

#[derive(Debug, Clone, Copy, PartialEq, Eq, Structural)]
pub enum FinderOption {
    IfFallbackExtraNewline,
}

pub enum InsertionPoint {
    LastInSectionOrFallback,
}

pub enum InsertionItem {
    EnumCaseWithRaw,
}

// ---------------------------------------------------------------------------
// Views
// ---------------------------------------------------------------------------

/// The mathematical value of a `Finder`.
pub enum FinderView {
    Regex(Seq<char>, bool),
    LineRegex(Seq<char>, i32),
    LastInSectionOrFallback(Box<FinderView>, Box<FinderView>, Seq<FinderOption>),
}

pub enum InsertCommandView {
    EnumCaseWithRaw(Seq<char>, Seq<char>),
}

pub struct DefinitionView {
    pub key: Seq<char>,
    pub value: Seq<char>,
}

pub enum LineCommandView {
    Insert(Seq<char>, FinderView, FinderView, InsertCommandView),
    Lang(SupportedLanguage),
    Def(DefinitionView),
    Empty,
}

pub open spec fn finder_view(f: Finder) -> FinderView
    decreases f,
{
    match f {
        Finder::Regex(p, b) => FinderView::Regex(p@, b),
        Finder::LineRegex(p, o) => FinderView::LineRegex(p@, o),
        Finder::LastInSectionOrFallback(a, b, opts) => FinderView::LastInSectionOrFallback(
            Box::new(finder_view(*a)),
            Box::new(finder_view(*b)),
            opts@,
        ),
    }
}

impl View for Finder {
    type V = FinderView;

    open spec fn view(&self) -> FinderView {
        finder_view(*self)
    }
}

impl View for InsertCommand {
    type V = InsertCommandView;

    open spec fn view(&self) -> InsertCommandView {
        match self {
            InsertCommand::EnumCaseWithRaw(k, r) => InsertCommandView::EnumCaseWithRaw(k@, r@),
        }
    }
}

impl View for Definition {
    type V = DefinitionView;

    open spec fn view(&self) -> DefinitionView {
        DefinitionView { key: self.key@, value: self.value@ }
    }
}

impl View for LineCommand {
    type V = LineCommandView;

    open spec fn view(&self) -> LineCommandView {
        match self {
            LineCommand::Insert(f, a, b, c) => LineCommandView::Insert(f@, a@, b@, c@),
            LineCommand::Lang(l) => LineCommandView::Lang(*l),
            LineCommand::Def(d) => LineCommandView::Def(d@),
            LineCommand::Empty => LineCommandView::Empty,
        }
    }
}

// ---------------------------------------------------------------------------
// Descriptions
// ---------------------------------------------------------------------------

/// How an insertion command is described.
pub open spec fn insert_command_text(c: InsertCommandView) -> Seq<char> {
    match c {
        InsertCommandView::EnumCaseWithRaw(k, r) => "Command.EnumCaseWithRaw("@ + k + ", raw: "@
            + r + ")"@,
    }
}

/// How a finder option is described.
pub open spec fn finder_option_text(o: FinderOption) -> Seq<char> {
    "FinderOption.IfFallbackNewlineBefore"@
}

/// The name of a finder option in debug output.
pub open spec fn finder_option_name(o: FinderOption) -> Seq<char> {
    "IfFallbackExtraNewline"@
}

/// The names of finder options separated by `", "`.
pub open spec fn option_names(opts: Seq<FinderOption>) -> Seq<char>
    decreases opts.len(),
{
    if opts.len() == 0 {
        Seq::<char>::empty()
    } else if opts.len() == 1 {
        finder_option_name(opts[0])
    } else {
        option_names(opts.drop_last()) + ", "@ + finder_option_name(opts.last())
    }
}

/// A list of finder options in debug output: `[A, B]`.
pub open spec fn options_debug_text(opts: Seq<FinderOption>) -> Seq<char> {
    "["@ + option_names(opts) + "]"@
}

/// How a finder is described.
pub open spec fn finder_text(f: FinderView) -> Seq<char>
    decreases f,
{
    match f {
        FinderView::Regex(p, before) => "Finder.Regex("@ + p + ", "@ + (if before {
            "before"@
        } else {
            "after"@
        }) + ")"@,
        FinderView::LineRegex(p, o) => "Finder.LineRegex("@ + p + ", offset: "@ + i32_text(o)
            + ")"@,
        FinderView::LastInSectionOrFallback(a, b, opts) => "Finder.LastInSectionOrFallback(default: "@
            + finder_text(*a) + ", fallback: "@ + finder_text(*b) + ", options: "@
            + options_debug_text(opts) + ")"@,
    }
}

fn push_str(v: &mut Vec<char>, s: &str)
    ensures
        final(v)@ == old(v)@ + s@,
{
    let w = chars_of(s);
    extend_chars(v, &w);
}

impl FinderOption {
    /// The description of this option.
    pub fn describe(&self) -> (r: String)
        ensures
            r@ == finder_option_text(*self),
    {
        let v = chars_of("FinderOption.IfFallbackNewlineBefore");
        string_of(&v)
    }
}

fn options_debug(opts: &Vec<FinderOption>) -> (r: Vec<char>)
    ensures
        r@ == options_debug_text(opts@),
{
    let mut v: Vec<char> = Vec::new();
    push_str(&mut v, "[");
    let ghost start = v@;
    let mut i: usize = 0;
    while i < opts.len()
        invariant
            i <= opts@.len(),
            v@ == start + option_names(opts@.take(i as int)),
        decreases opts@.len() - i,
    {
        let ghost t = opts@.take(i + 1);
        assert(t.drop_last() =~= opts@.take(i as int));
        if i > 0 {
            push_str(&mut v, ", ");
        }
        push_str(&mut v, "IfFallbackExtraNewline");
        proof {
            if i == 0 {
                assert(option_names(opts@.take(0)) =~= Seq::<char>::empty());
            }
        }
        assert(v@ =~= start + option_names(t));
        i += 1;
    }
    assert(opts@.take(opts@.len() as int) =~= opts@);
    push_str(&mut v, "]");
    assert(v@ =~= options_debug_text(opts@));
    v
}

impl InsertCommand {
    /// The description of this command.
    pub fn describe(&self) -> (r: String)
        ensures
            r@ == insert_command_text(self@),
    {
        match self {
            InsertCommand::EnumCaseWithRaw(k, raw) => {
                let mut v: Vec<char> = Vec::new();
                push_str(&mut v, "Command.EnumCaseWithRaw(");
                push_str(&mut v, k.as_str());
                push_str(&mut v, ", raw: ");
                push_str(&mut v, raw.as_str());
                push_str(&mut v, ")");
                assert(v@ =~= insert_command_text(self@));
                string_of(&v)
            },
        }
    }
}

impl Finder {
    fn describe_chars(&self) -> (r: Vec<char>)
        ensures
            r@ == finder_text(self@),
        decreases self,
    {
        let mut v: Vec<char> = Vec::new();
        match self {
            Finder::Regex(p, before) => {
                push_str(&mut v, "Finder.Regex(");
                push_str(&mut v, p.as_str());
                push_str(&mut v, ", ");
                if *before {
                    push_str(&mut v, "before");
                } else {
                    push_str(&mut v, "after");
                }
                push_str(&mut v, ")");
            },
            Finder::LineRegex(p, o) => {
                push_str(&mut v, "Finder.LineRegex(");
                push_str(&mut v, p.as_str());
                push_str(&mut v, ", offset: ");
                let d = i32_chars(*o);
                extend_chars(&mut v, &d);
                push_str(&mut v, ")");
            },
            Finder::LastInSectionOrFallback(a, b, opts) => {
                push_str(&mut v, "Finder.LastInSectionOrFallback(default: ");
                let da = a.describe_chars();
                extend_chars(&mut v, &da);
                push_str(&mut v, ", fallback: ");
                let db = b.describe_chars();
                extend_chars(&mut v, &db);
                push_str(&mut v, ", options: ");
                let o = options_debug(opts);
                extend_chars(&mut v, &o);
                push_str(&mut v, ")");
            },
        }
        assert(v@ =~= finder_text(self@));
        v
    }

    /// The description of this finder.
    pub fn describe(&self) -> (r: String)
        ensures
            r@ == finder_text(self@),
    {
        let v = self.describe_chars();
        string_of(&v)
    }
}

} // verus!
