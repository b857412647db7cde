//! Parsing of insertion lines: finders, commands and their arguments.
use vstd::prelude::*;
use convert_case::Casing;
use crate::error::{ScriptError, ScriptErrorView};
use crate::model::{
    Definition, DefinitionView, Finder, FinderOption, FinderView, InsertCommand,
    InsertCommandView, LineCommand, LineCommandView, SupportedLanguage,
};
use crate::string_utils::{inside_parens, lemma_inside_parens_shorter, paren_chars, remove_paren_chars, without_parens};
use crate::text::{
    chars_equal, chars_of, contains, contains_chars, has_char, has_char_exec, lemma_trim_len,
    lowercase, lowercase_chars, parse_bool, parse_bool_chars, parse_i32, parse_i32_chars,
    slice_chars, split_on, split_on_char, string_of, trim, trim_chars, views,
};

verus! {

// ---------------------------------------------------------------------------
// Splitting arguments at top-level commas
// ---------------------------------------------------------------------------

/// The state of a left-to-right scan for top-level commas: the pieces split
/// off so far, the characters gathered since, and the parenthesis depth.
pub type CommaScan = (Seq<Seq<char>>, Seq<char>, int);

/// One character of the scan. A comma at depth zero ends a piece, unless
/// nothing was gathered since the last one; inside parentheses it is kept;
/// at negative depth it is dropped. Parentheses are kept and change the depth.
pub open spec fn comma_step(st: CommaScan, c: char) -> CommaScan {
    let (pieces, acc, depth) = st;
    if c == ',' {
        if depth == 0 && acc.len() > 0 {
            (pieces.push(trim(acc)), Seq::<char>::empty(), depth)
        } else if depth > 0 {
            (pieces, acc.push(c), depth)
        } else {
            st
        }
    } else if c == '(' {
        (pieces, acc.push(c), depth + 1)
    } else if c == ')' {
        (pieces, acc.push(c), depth - 1)
    } else {
        (pieces, acc.push(c), depth)
    }
}

/// The scan state after all characters of `s`.
pub open spec fn comma_scan(s: Seq<char>) -> CommaScan
    decreases s.len(),
{
    if s.len() == 0 {
        (Seq::<Seq<char>>::empty(), Seq::<char>::empty(), 0)
    } else {
        comma_step(comma_scan(s.drop_last()), s.last())
    }
}

/// The depth stays within the range of the 16-bit counter that tracks it.
pub open spec fn depth_in_range(s: Seq<char>) -> bool {
    forall|i: int|
        0 <= i <= s.len() ==> i16::MIN <= #[trigger] comma_scan(s.take(i)).2 <= i16::MAX
}

/// The trimmed pieces of `s` between its top-level commas; a final piece is
/// kept when anything was gathered after the last split. `None` when the
/// depth leaves the range of its counter.
pub open spec fn toplevel_pieces(s: Seq<char>) -> Option<Seq<Seq<char>>> {
    if depth_in_range(s) {
        let (pieces, acc, _) = comma_scan(s);
        Some(
            if acc.len() > 0 {
                pieces.push(trim(acc))
            } else {
                pieces
            },
        )
    } else {
        None
    }
}

/// No piece is longer than the text it came from.
pub proof fn lemma_comma_scan_lengths(s: Seq<char>)
    ensures
        comma_scan(s).1.len() <= s.len(),
        forall|k: int|
            0 <= k < comma_scan(s).0.len() ==> (#[trigger] comma_scan(s).0[k]).len() <= s.len(),
    decreases s.len(),
{
    if s.len() > 0 {
        lemma_comma_scan_lengths(s.drop_last());
        lemma_trim_len(comma_scan(s.drop_last()).1);
    }
}

/// Each top-level piece is no longer than the text it came from.
pub proof fn lemma_toplevel_piece_lengths(s: Seq<char>)
    ensures
        toplevel_pieces(s) matches Some(p) ==> forall|k: int|
            0 <= k < p.len() ==> (#[trigger] p[k]).len() <= s.len(),
{
    lemma_comma_scan_lengths(s);
    lemma_trim_len(comma_scan(s).1);
}

fn toplevel_pieces_result(s: &[char]) -> (r: Option<Vec<Vec<char>>>)
    ensures
        r matches Some(v) ==> toplevel_pieces(s@) == Some(views(v@)),
        r is None ==> toplevel_pieces(s@) is None,
{
    let mut output: Vec<Vec<char>> = Vec::new();
    let mut accumulator: Vec<char> = Vec::new();
    let mut open_paren_count: i16 = 0;
    let mut i: usize = 0;
    assert(s@.take(0) =~= Seq::<char>::empty());
    assert(views(output@) =~= Seq::<Seq<char>>::empty());
    while i < s.len()
        invariant
            i <= s@.len(),
            (views(output@), accumulator@, open_paren_count as int) == comma_scan(
                s@.take(i as int),
            ),
            forall|j: int|
                0 <= j <= i ==> i16::MIN <= #[trigger] comma_scan(s@.take(j)).2 <= i16::MAX,
        decreases s@.len() - i,
    {
        let c = s[i];
        let ghost t = s@.take(i + 1);
        assert(t.drop_last() =~= s@.take(i as int));
        assert(t.last() == c);
        let ghost before = (views(output@), accumulator@, open_paren_count as int);
        if c == ',' {
            if open_paren_count == 0 && accumulator.len() > 0 {
                let piece = trim_chars(&accumulator);
                output.push(piece);
                accumulator = Vec::new();
                assert(views(output@) =~= before.0.push(trim(before.1)));
                assert(accumulator@ =~= Seq::<char>::empty());
            } else if open_paren_count > 0 {
                accumulator.push(c);
            }
        } else if c == '(' {
            if open_paren_count == i16::MAX {
                assert(!(comma_scan(t).2 <= i16::MAX));
                assert(!depth_in_range(s@));
                return None;
            }
            open_paren_count += 1;
            accumulator.push(c);
        } else if c == ')' {
            if open_paren_count == i16::MIN {
                assert(!(i16::MIN <= comma_scan(t).2));
                assert(!depth_in_range(s@));
                return None;
            }
            open_paren_count -= 1;
            accumulator.push(c);
        } else {
            accumulator.push(c);
        }
        assert((views(output@), accumulator@, open_paren_count as int) == comma_scan(t));
        i += 1;
    }
    assert(s@.take(s@.len() as int) =~= s@);
    if accumulator.len() > 0 {
        let ghost before = views(output@);
        let piece = trim_chars(&accumulator);
        output.push(piece);
        assert(views(output@) =~= before.push(trim(accumulator@)));
    }
    Some(output)
}


// ---------------------------------------------------------------------------
// Commands and their arguments
// ---------------------------------------------------------------------------

/// A command name with its arguments.
struct Command {
    command: Vec<char>,
    args: Vec<Vec<char>>,
}

/// The value of a command: its name and its arguments.
pub struct CommandView {
    pub command: Seq<char>,
    pub args: Seq<Seq<char>>,
}

/// How a text is read as a command. With parentheses, the name is what stands
/// outside them, lowercased and trimmed, and the arguments are the top-level
/// pieces inside; without, the whole text is the name and there are no
/// arguments.
pub open spec fn command_parts(s: Seq<char>) -> Result<CommandView, ScriptErrorView> {
    if has_char(s, '(') || has_char(s, ')') {
        match without_parens(s) {
            Err(e) => Err(e),
            Ok(outside) => match inside_parens(s) {
                Err(e) => Err(e),
                Ok(inside) => match toplevel_pieces(inside) {
                    None => Err(ScriptErrorView::NestingTooDeep),
                    Some(args) => Ok(CommandView { command: trim(lowercase(outside)), args }),
                },
            },
        }
    } else {
        Ok(CommandView { command: s, args: Seq::<Seq<char>>::empty() })
    }
}

/// Each argument of a command is shorter than the command's text.
pub proof fn lemma_command_args_shorter(s: Seq<char>)
    ensures
        command_parts(s) matches Ok(cmd) ==> forall|k: int|
            0 <= k < cmd.args.len() ==> (#[trigger] cmd.args[k]).len() < s.len(),
{
    lemma_inside_parens_shorter(s);
    if let Ok(inside) = inside_parens(s) {
        lemma_toplevel_piece_lengths(inside);
    }
}

fn get_command_args(s: &[char]) -> (r: Result<Command, ScriptError>)
    ensures
        match r {
            Ok(c) => command_parts(s@) == Ok::<CommandView, ScriptErrorView>(
                CommandView { command: c.command@, args: views(c.args@) },
            ),
            Err(e) => command_parts(s@) == Err::<CommandView, ScriptErrorView>(e@),
        },
{
    if has_char_exec(s, '(') || has_char_exec(s, ')') {
        let outside = remove_paren_chars(s)?;
        let lowered = lowercase_chars(&outside);
        let command = trim_chars(&lowered);
        let arguments = paren_chars(s)?;
        match toplevel_pieces_result(&arguments) {
            None => Err(ScriptError::NestingTooDeep),
            Some(args) => Ok(Command { command, args }),
        }
    } else {
        let mut command: Vec<char> = Vec::new();
        crate::text::extend_chars(&mut command, s);
        let args: Vec<Vec<char>> = Vec::new();
        assert(views(args@) =~= Seq::<Seq<char>>::empty());
        assert(command@ =~= s@);
        Ok(Command { command, args })
    }
}

/// The value of a list of definitions.
pub open spec fn definitions_view(d: Seq<Definition>) -> Seq<DefinitionView> {
    d.map_values(|x: Definition| x@)
}

/// The value of the first definition with the given key.
pub open spec fn lookup_definition(defs: Seq<DefinitionView>, key: Seq<char>) -> Option<Seq<char>>
    decreases defs.len(),
{
    if defs.len() == 0 {
        None
    } else if defs[0].key == key {
        Some(defs[0].value)
    } else {
        lookup_definition(defs.drop_first(), key)
    }
}

proof fn lemma_lookup_at(defs: Seq<DefinitionView>, key: Seq<char>, i: int)
    requires
        0 <= i <= defs.len(),
        forall|k: int| 0 <= k < i ==> (#[trigger] defs[k]).key != key,
    ensures
        i == defs.len() ==> lookup_definition(defs, key) is None,
        i < defs.len() && defs[i].key == key ==> lookup_definition(defs, key) == Some(defs[i].value),
    decreases i,
{
    if i > 0 {
        assert(defs[0].key != key);
        let rest = defs.drop_first();
        assert forall|k: int| 0 <= k < i - 1 implies (#[trigger] rest[k]).key != key by {
            assert(rest[k] == defs[k + 1]);
        }
        lemma_lookup_at(rest, key, i - 1);
    }
}

fn find_definition(definitions: &Vec<Definition>, key: &[char]) -> (r: Option<Vec<char>>)
    ensures
        r matches Some(v) ==> lookup_definition(definitions_view(definitions@), key@) == Some(v@),
        r is None ==> lookup_definition(definitions_view(definitions@), key@) is None,
{
    let ghost defs = definitions_view(definitions@);
    let mut i: usize = 0;
    while i < definitions.len()
        invariant
            i <= definitions@.len(),
            defs == definitions_view(definitions@),
            forall|k: int| 0 <= k < i ==> (#[trigger] defs[k]).key != key@,
        decreases definitions@.len() - i,
    {
        let def = &definitions[i];
        let def_key = chars_of(def.key.as_str());
        if chars_equal(&def_key, key) {
            proof {
                lemma_lookup_at(defs, key@, i as int);
            }
            return Some(chars_of(def.value.as_str()));
        }
        i += 1;
    }
    proof {
        lemma_lookup_at(defs, key@, i as int);
    }
    None
}

/// What `convert_case` returns for `Case::Camel`.
pub uninterp spec fn camel_case(s: Seq<char>) -> Seq<char>;

/// `convert_case::Casing::to_case` with `Case::Camel`: its result is named by
/// `camel_case`.
#[verifier::external_body]
fn to_camel_case(s: &str) -> (r: String)
    ensures
        r@ == camel_case(s@),
{
    s.to_case(convert_case::Case::Camel)
}

/// The value of an argument of an insertion command: `camelCase(arg)` recases
/// the value of its argument, `$key` is the value of the first definition of
/// `key`, and any other text is itself.
pub open spec fn command_arg(arg: Seq<char>, defs: Seq<DefinitionView>) -> Result<
    Seq<char>,
    ScriptErrorView,
>
    decreases arg.len(),
{
    if has_char(arg, '(') || has_char(arg, ')') {
        match command_parts(arg) {
            Err(e) => Err(e),
            Ok(cmd) => if lowercase(cmd.command) == "camelcase"@ {
                if cmd.args.len() == 0 {
                    Err(ScriptErrorView::CamelCaseWithoutArgument)
                } else {
                    proof {
                        lemma_command_args_shorter(arg);
                    }
                    match command_arg(cmd.args[0], defs) {
                        Err(e) => Err(e),
                        Ok(v) => Ok(camel_case(v)),
                    }
                }
            } else {
                Err(ScriptErrorView::InvalidCommand(cmd.command))
            },
        }
    } else if has_char(arg, '$') {
        if arg[0] == '$' {
            match lookup_definition(defs, arg.drop_first()) {
                Some(v) => Ok(v),
                None => Err(ScriptErrorView::NoDefinition(arg.drop_first())),
            }
        } else {
            Err(ScriptErrorView::MisplacedDollar)
        }
    } else {
        Ok(arg)
    }
}

fn parse_command_arg_result(arg: &[char], definitions: &Vec<Definition>) -> (r: Result<
    Vec<char>,
    ScriptError,
>)
    ensures
        match r {
            Ok(v) => command_arg(arg@, definitions_view(definitions@)) == Ok::<
                Seq<char>,
                ScriptErrorView,
            >(v@),
            Err(e) => command_arg(arg@, definitions_view(definitions@)) == Err::<
                Seq<char>,
                ScriptErrorView,
            >(e@),
        },
    decreases arg@.len(),
{
    if has_char_exec(arg, '(') || has_char_exec(arg, ')') {
        let command = get_command_args(arg)?;
        let lowered = lowercase_chars(&command.command);
        let name = chars_of("camelcase");
        if chars_equal(&lowered, &name) {
            if command.args.len() == 0 {
                return Err(ScriptError::CamelCaseWithoutArgument);
            }
            proof {
                lemma_command_args_shorter(arg@);
                assert(views(command.args@)[0] == command.args@[0]@);
            }
            let value = parse_command_arg_result(&command.args[0], definitions)?;
            let text = string_of(&value);
            let recased = to_camel_case(text.as_str());
            Ok(chars_of(recased.as_str()))
        } else {
            Err(ScriptError::InvalidCommand(string_of(&command.command)))
        }
    } else if has_char_exec(arg, '$') {
        if arg[0] == '$' {
            let key = slice_chars(arg, 1, arg.len());
            assert(key@ =~= arg@.drop_first());
            match find_definition(definitions, &key) {
                Some(v) => Ok(v),
                None => Err(ScriptError::NoDefinition(string_of(&key))),
            }
        } else {
            Err(ScriptError::MisplacedDollar)
        }
    } else {
        let mut v: Vec<char> = Vec::new();
        crate::text::extend_chars(&mut v, arg);
        assert(v@ =~= arg@);
        Ok(v)
    }
}


/// How the command part of an insertion line is read: `EnumCaseWithRaw`
/// (in any letter case) with exactly two arguments.
pub open spec fn insert_command_spec(s: Seq<char>, defs: Seq<DefinitionView>, idx: usize) -> Result<
    InsertCommandView,
    ScriptErrorView,
> {
    match command_parts(s) {
        Err(e) => Err(e),
        Ok(cmd) => if lowercase(cmd.command) == "enumcasewithraw"@ {
            if cmd.args.len() != 2 {
                Err(ScriptErrorView::WrongCommandArgumentCount(idx))
            } else {
                match command_arg(cmd.args[0], defs) {
                    Err(e) => Err(e),
                    Ok(key) => match command_arg(cmd.args[1], defs) {
                        Err(e) => Err(e),
                        Ok(raw) => Ok(InsertCommandView::EnumCaseWithRaw(key, raw)),
                    },
                }
            }
        } else {
            Err(ScriptErrorView::CommandNotFound(cmd.command, idx))
        },
    }
}

fn parse_command_result(insert_command: &[char], definitions: &Vec<Definition>, idx: usize) -> (r:
    Result<InsertCommand, ScriptError>)
    ensures
        match r {
            Ok(c) => insert_command_spec(insert_command@, definitions_view(definitions@), idx)
                == Ok::<InsertCommandView, ScriptErrorView>(c@),
            Err(e) => insert_command_spec(insert_command@, definitions_view(definitions@), idx)
                == Err::<InsertCommandView, ScriptErrorView>(e@),
        },
{
    let command = get_command_args(insert_command)?;
    let lowered = lowercase_chars(&command.command);
    let name = chars_of("enumcasewithraw");
    if chars_equal(&lowered, &name) {
        if command.args.len() != 2 {
            return Err(ScriptError::WrongCommandArgumentCount(idx));
        }
        assert(views(command.args@)[0] == command.args@[0]@);
        assert(views(command.args@)[1] == command.args@[1]@);
        let arg1 = parse_command_arg_result(&command.args[0], definitions)?;
        let arg2 = parse_command_arg_result(&command.args[1], definitions)?;
        Ok(InsertCommand::EnumCaseWithRaw(string_of(&arg1), string_of(&arg2)))
    } else {
        Err(ScriptError::CommandNotFound(string_of(&command.command), idx))
    }
}

// ---------------------------------------------------------------------------
// Finders
// ---------------------------------------------------------------------------

/// How a finder option is read: `ifFallbackNewlineBefore`, in any letter case.
pub open spec fn finder_option_spec(option: Seq<char>, idx: usize) -> Result<
    FinderOption,
    ScriptErrorView,
> {
    if lowercase(option) == "iffallbacknewlinebefore"@ {
        Ok(FinderOption::IfFallbackExtraNewline)
    } else {
        Err(ScriptErrorView::InvalidFinderOption(option, idx))
    }
}

fn parse_finder_option_result(option: &[char], idx: usize) -> (r: Result<FinderOption, ScriptError>)
    ensures
        match r {
            Ok(o) => finder_option_spec(option@, idx) == Ok::<FinderOption, ScriptErrorView>(o),
            Err(e) => finder_option_spec(option@, idx) == Err::<FinderOption, ScriptErrorView>(
                e@,
            ),
        },
{
    let lowered = lowercase_chars(option);
    let name = chars_of("iffallbacknewlinebefore");
    if chars_equal(&lowered, &name) {
        Ok(FinderOption::IfFallbackExtraNewline)
    } else {
        Err(ScriptError::InvalidFinderOption(string_of(option), idx))
    }
}

/// The options read from a list of option texts, in order; the first that
/// cannot be read is the error.
pub open spec fn finder_options_spec(opts: Seq<Seq<char>>, idx: usize) -> Result<
    Seq<FinderOption>,
    ScriptErrorView,
>
    decreases opts.len(),
{
    if opts.len() == 0 {
        Ok(Seq::<FinderOption>::empty())
    } else {
        match finder_options_spec(opts.drop_last(), idx) {
            Err(e) => Err(e),
            Ok(p) => match finder_option_spec(opts.last(), idx) {
                Err(e) => Err(e),
                Ok(o) => Ok(p.push(o)),
            },
        }
    }
}

/// A pattern written between double quotes, without them.
pub open spec fn unquote(s: Seq<char>) -> Option<Seq<char>> {
    if s.len() > 0 && s[0] == '"' {
        let t = s.drop_first();
        if t.len() > 0 && t.last() == '"' {
            Some(t.drop_last())
        } else {
            None
        }
    } else {
        None
    }
}

fn unquote_exec(s: &[char]) -> (r: Option<Vec<char>>)
    ensures
        r matches Some(v) ==> unquote(s@) == Some(v@),
        r is None ==> unquote(s@) is None,
{
    let n = s.len();
    if n > 0 && s[0] == '"' {
        if n > 1 && s[n - 1] == '"' {
            let v = slice_chars(s, 1, n - 1);
            assert(v@ =~= s@.drop_first().drop_last());
            Some(v)
        } else {
            None
        }
    } else {
        None
    }
}

/// How a finder is read. The command name is tested, in this order, for
/// containing `lineregex`, `regex` and `lastinsectionorfallback`.
/// `lineRegex("pattern", offset)` and `regex("pattern", before)` take a
/// quoted pattern and an `i32` or a `bool`; `lastInSectionOrFallback(finder,
/// fallback, options...)` takes two finders and any number of options.
pub open spec fn finder_spec(s: Seq<char>, idx: usize) -> Result<FinderView, ScriptErrorView>
    decreases s.len(),
{
    match command_parts(s) {
        Err(e) => Err(e),
        Ok(cmd) => if contains(cmd.command, "lineregex"@) {
            if cmd.args.len() < 2 {
                Err(ScriptErrorView::NotEnoughFinderArguments(cmd.command, idx))
            } else {
                match parse_i32(cmd.args[1]) {
                    None => Err(ScriptErrorView::ExpectedInteger(idx)),
                    Some(lines) => match unquote(cmd.args[0]) {
                        None => Err(ScriptErrorView::UnquotedPattern),
                        Some(p) => Ok(FinderView::LineRegex(p, lines)),
                    },
                }
            }
        } else if contains(cmd.command, "regex"@) {
            if cmd.args.len() < 2 {
                Err(ScriptErrorView::NotEnoughFinderArguments(cmd.command, idx))
            } else {
                match parse_bool(cmd.args[1]) {
                    None => Err(ScriptErrorView::ExpectedBoolean(idx)),
                    Some(before) => match unquote(cmd.args[0]) {
                        None => Err(ScriptErrorView::UnquotedPattern),
                        Some(p) => Ok(FinderView::Regex(p, before)),
                    },
                }
            }
        } else if contains(cmd.command, "lastinsectionorfallback"@) {
            if cmd.args.len() < 2 {
                Err(ScriptErrorView::NotEnoughFinderArguments(cmd.command, idx))
            } else {
                proof {
                    lemma_command_args_shorter(s);
                }
                match finder_spec(cmd.args[0], idx) {
                    Err(e) => Err(e),
                    Ok(first) => match finder_spec(cmd.args[1], idx) {
                        Err(e) => Err(e),
                        Ok(fallback) => match finder_options_spec(cmd.args.skip(2), idx) {
                            Err(e) => Err(e),
                            Ok(opts) => Ok(
                                FinderView::LastInSectionOrFallback(
                                    Box::new(first),
                                    Box::new(fallback),
                                    opts,
                                ),
                            ),
                        },
                    },
                }
            }
        } else {
            Err(ScriptErrorView::InvalidFinder(idx, cmd.command))
        },
    }
}

/// An option that cannot be read makes every longer list fail with its error.
proof fn lemma_options_error_persists(opts: Seq<Seq<char>>, k: int, idx: usize)
    requires
        0 <= k <= opts.len(),
        finder_options_spec(opts.take(k), idx) is Err,
    ensures
        finder_options_spec(opts, idx) == finder_options_spec(opts.take(k), idx),
    decreases opts.len() - k,
{
    if k < opts.len() {
        assert(opts.drop_last().take(k) =~= opts.take(k));
        lemma_options_error_persists(opts.drop_last(), k, idx);
    } else {
        assert(opts.take(k) =~= opts);
    }
}

fn parse_finder_options(args: &Vec<Vec<char>>, idx: usize) -> (r: Result<
    Vec<FinderOption>,
    ScriptError,
>)
    requires
        args@.len() >= 2,
    ensures
        match r {
            Ok(o) => finder_options_spec(views(args@).skip(2), idx) == Ok::<
                Seq<FinderOption>,
                ScriptErrorView,
            >(o@),
            Err(e) => finder_options_spec(views(args@).skip(2), idx) == Err::<
                Seq<FinderOption>,
                ScriptErrorView,
            >(e@),
        },
{
    let ghost all = views(args@).skip(2);
    let mut options: Vec<FinderOption> = Vec::new();
    let mut i: usize = 2;
    assert(all.take(0) =~= Seq::<Seq<char>>::empty());
    while i < args.len()
        invariant
            2 <= i <= args@.len(),
            all == views(args@).skip(2),
            finder_options_spec(all.take(i - 2), idx) == Ok::<Seq<FinderOption>, ScriptErrorView>(
                options@,
            ),
        decreases args@.len() - i,
    {
        let ghost t = all.take(i - 1);
        assert(t.drop_last() =~= all.take(i - 2));
        assert(t.last() == args@[i as int]@);
        let o = match parse_finder_option_result(&args[i], idx) {
            Ok(o) => o,
            Err(e) => {
                proof {
                    lemma_options_error_persists(all, i - 1, idx);
                }
                return Err(e);
            },
        };
        options.push(o);
        i += 1;
    }
    assert(all.take(i - 2) =~= all);
    Ok(options)
}

fn parse_finder_result(finder: &[char], idx: usize) -> (r: Result<Finder, ScriptError>)
    ensures
        match r {
            Ok(f) => finder_spec(finder@, idx) == Ok::<FinderView, ScriptErrorView>(f@),
            Err(e) => finder_spec(finder@, idx) == Err::<FinderView, ScriptErrorView>(e@),
        },
    decreases finder@.len(),
{
    let command = get_command_args(finder)?;
    proof {
        lemma_command_args_shorter(finder@);
    }
    let ghost args = views(command.args@);
    if command.args.len() >= 2 {
        assert(args[0] == command.args@[0]@);
        assert(args[1] == command.args@[1]@);
    }
    if contains_chars(&command.command, &chars_of("lineregex")) {
        if command.args.len() < 2 {
            return Err(ScriptError::NotEnoughFinderArguments(string_of(&command.command), idx));
        }
        let lines = match parse_i32_chars(&command.args[1]) {
            Some(n) => n,
            None => return Err(ScriptError::ExpectedInteger(idx)),
        };
        match unquote_exec(&command.args[0]) {
            Some(p) => Ok(Finder::LineRegex(string_of(&p), lines)),
            None => Err(ScriptError::UnquotedPattern),
        }
    } else if contains_chars(&command.command, &chars_of("regex")) {
        if command.args.len() < 2 {
            return Err(ScriptError::NotEnoughFinderArguments(string_of(&command.command), idx));
        }
        let before = match parse_bool_chars(&command.args[1]) {
            Some(b) => b,
            None => return Err(ScriptError::ExpectedBoolean(idx)),
        };
        match unquote_exec(&command.args[0]) {
            Some(p) => Ok(Finder::Regex(string_of(&p), before)),
            None => Err(ScriptError::UnquotedPattern),
        }
    } else if contains_chars(&command.command, &chars_of("lastinsectionorfallback")) {
        if command.args.len() < 2 {
            return Err(ScriptError::NotEnoughFinderArguments(string_of(&command.command), idx));
        }
        let nested_finder = parse_finder_result(&command.args[0], idx)?;
        let nested_fallback_finder = parse_finder_result(&command.args[1], idx)?;
        let options = parse_finder_options(&command.args, idx)?;
        Ok(
            Finder::LastInSectionOrFallback(
                Box::new(nested_finder),
                Box::new(nested_fallback_finder),
                options,
            ),
        )
    } else {
        Err(ScriptError::InvalidFinder(idx, string_of(&command.command)))
    }
}

// ---------------------------------------------------------------------------
// Insertion lines
// ---------------------------------------------------------------------------

/// How an insertion line is read: `file;finder;finder;command`, split at
/// every `;`. The two finders are read before the command part is looked at.
pub open spec fn insert_line_spec(s: Seq<char>, defs: Seq<DefinitionView>, idx: usize) -> Result<
    LineCommandView,
    ScriptErrorView,
> {
    let c = split_on(s, ';');
    if c.len() < 3 {
        Err(ScriptErrorView::NotEnoughInsertArguments(idx))
    } else {
        match finder_spec(c[1], idx) {
            Err(e) => Err(e),
            Ok(start) => match finder_spec(c[2], idx) {
                Err(e) => Err(e),
                Ok(marker) => if c.len() < 4 {
                    Err(ScriptErrorView::MissingInsertCommand(idx))
                } else {
                    match insert_command_spec(c[3], defs, idx) {
                        Err(e) => Err(e),
                        Ok(cmd) => Ok(LineCommandView::Insert(c[0], start, marker, cmd)),
                    }
                },
            },
        }
    }
}

pub(crate) fn parse_insert_result(line: &[char], definitions: &Vec<Definition>, idx: usize) -> (r: Result<
    LineCommand,
    ScriptError,
>)
    ensures
        match r {
            Ok(c) => insert_line_spec(line@, definitions_view(definitions@), idx) == Ok::<
                LineCommandView,
                ScriptErrorView,
            >(c@),
            Err(e) => insert_line_spec(line@, definitions_view(definitions@), idx) == Err::<
                LineCommandView,
                ScriptErrorView,
            >(e@),
        },
{
    let components = split_on_char(line, ';');
    let ghost c = views(components@);
    if components.len() < 3 {
        return Err(ScriptError::NotEnoughInsertArguments(idx));
    }
    assert(c[0] == components@[0]@);
    assert(c[1] == components@[1]@);
    assert(c[2] == components@[2]@);
    let finder1 = parse_finder_result(&components[1], idx)?;
    let finder2 = parse_finder_result(&components[2], idx)?;
    if components.len() < 4 {
        return Err(ScriptError::MissingInsertCommand(idx));
    }
    assert(c[3] == components@[3]@);
    let command = parse_command_result(&components[3], definitions, idx)?;
    Ok(LineCommand::Insert(string_of(&components[0]), finder1, finder2, command))
}

// ---------------------------------------------------------------------------
// The readers, on text that is well formed, and their checked forms
// ---------------------------------------------------------------------------

/// Splits `s` at its top-level commas; the parenthesis depth must stay within
/// its 16-bit counter.
pub fn separate_by_toplevel_commas(s: &[char]) -> (r: Vec<Vec<char>>)
    requires
        toplevel_pieces(s@) is Some,
    ensures
        toplevel_pieces(s@) == Some(views(r@)),
{
    match toplevel_pieces_result(s) {
        Some(v) => v,
        None => unreached(),
    }
}

/// `separate_by_toplevel_commas`, or `None` where the parenthesis depth
/// leaves the range of its 16-bit counter.
pub fn try_separate_by_toplevel_commas(s: &[char]) -> (r: Option<Vec<Vec<char>>>)
    ensures
        r matches Some(v) ==> toplevel_pieces(s@) == Some(views(v@)),
        r is None ==> toplevel_pieces(s@) is None,
{
    match toplevel_pieces_result(s) {
        Some(_) => Some(separate_by_toplevel_commas(s)),
        None => None,
    }
}

/// The value of an argument of an insertion command, which must be one that
/// can be read.
pub fn parse_command_arg(arg: &[char], definitions: &Vec<Definition>) -> (r: Vec<char>)
    requires
        command_arg(arg@, definitions_view(definitions@)) is Ok,
    ensures
        command_arg(arg@, definitions_view(definitions@)) == Ok::<Seq<char>, ScriptErrorView>(
            r@,
        ),
{
    match parse_command_arg_result(arg, definitions) {
        Ok(v) => v,
        Err(_) => unreached(),
    }
}

/// `parse_command_arg`, or why the argument cannot be read.
pub fn try_parse_command_arg(arg: &[char], definitions: &Vec<Definition>) -> (r: Result<
    Vec<char>,
    ScriptError,
>)
    ensures
        match r {
            Ok(v) => command_arg(arg@, definitions_view(definitions@)) == Ok::<
                Seq<char>,
                ScriptErrorView,
            >(v@),
            Err(e) => command_arg(arg@, definitions_view(definitions@)) == Err::<
                Seq<char>,
                ScriptErrorView,
            >(e@),
        },
{
    match parse_command_arg_result(arg, definitions) {
        Ok(_) => Ok(parse_command_arg(arg, definitions)),
        Err(e) => Err(e),
    }
}

/// Reads the command part of an insertion line, which must be well formed.
pub fn parse_command(insert_command: &[char], definitions: &Vec<Definition>, idx: usize) -> (r:
    InsertCommand)
    requires
        insert_command_spec(insert_command@, definitions_view(definitions@), idx) is Ok,
    ensures
        insert_command_spec(insert_command@, definitions_view(definitions@), idx) == Ok::<
            InsertCommandView,
            ScriptErrorView,
        >(r@),
{
    match parse_command_result(insert_command, definitions, idx) {
        Ok(c) => c,
        Err(_) => unreached(),
    }
}

/// `parse_command`, or why the command part cannot be read.
pub fn try_parse_command(insert_command: &[char], definitions: &Vec<Definition>, idx: usize) -> (r:
    Result<InsertCommand, ScriptError>)
    ensures
        match r {
            Ok(c) => insert_command_spec(insert_command@, definitions_view(definitions@), idx)
                == Ok::<InsertCommandView, ScriptErrorView>(c@),
            Err(e) => insert_command_spec(insert_command@, definitions_view(definitions@), idx)
                == Err::<InsertCommandView, ScriptErrorView>(e@),
        },
{
    match parse_command_result(insert_command, definitions, idx) {
        Ok(_) => Ok(parse_command(insert_command, definitions, idx)),
        Err(e) => Err(e),
    }
}

/// Reads a finder option, which must be one that exists.
pub fn parse_finder_option(option: &[char], idx: usize) -> (r: FinderOption)
    requires
        finder_option_spec(option@, idx) is Ok,
    ensures
        finder_option_spec(option@, idx) == Ok::<FinderOption, ScriptErrorView>(r),
{
    match parse_finder_option_result(option, idx) {
        Ok(o) => o,
        Err(_) => unreached(),
    }
}

/// `parse_finder_option`, or why the option cannot be read.
pub fn try_parse_finder_option(option: &[char], idx: usize) -> (r: Result<FinderOption, ScriptError>)
    ensures
        match r {
            Ok(o) => finder_option_spec(option@, idx) == Ok::<FinderOption, ScriptErrorView>(o),
            Err(e) => finder_option_spec(option@, idx) == Err::<FinderOption, ScriptErrorView>(
                e@,
            ),
        },
{
    match parse_finder_option_result(option, idx) {
        Ok(_) => Ok(parse_finder_option(option, idx)),
        Err(e) => Err(e),
    }
}

/// Reads a finder, which must be well formed.
pub fn parse_finder(finder: &[char], idx: usize) -> (r: Finder)
    requires
        finder_spec(finder@, idx) is Ok,
    ensures
        finder_spec(finder@, idx) == Ok::<FinderView, ScriptErrorView>(r@),
{
    match parse_finder_result(finder, idx) {
        Ok(f) => f,
        Err(_) => unreached(),
    }
}

/// `parse_finder`, or why the finder cannot be read.
pub fn try_parse_finder(finder: &[char], idx: usize) -> (r: Result<Finder, ScriptError>)
    ensures
        match r {
            Ok(f) => finder_spec(finder@, idx) == Ok::<FinderView, ScriptErrorView>(f@),
            Err(e) => finder_spec(finder@, idx) == Err::<FinderView, ScriptErrorView>(e@),
        },
{
    match parse_finder_result(finder, idx) {
        Ok(_) => Ok(parse_finder(finder, idx)),
        Err(e) => Err(e),
    }
}

/// Reads an insertion line, which must be well formed (`lang` is the
/// script's language, which the reading does not depend on).
pub fn parse_insert(
    insert_command: &str,
    lang: &SupportedLanguage,
    definitions: &Vec<Definition>,
    idx: usize,
) -> (r: LineCommand)
    requires
        insert_line_spec(insert_command@, definitions_view(definitions@), idx) is Ok,
    ensures
        insert_line_spec(insert_command@, definitions_view(definitions@), idx) == Ok::<
            LineCommandView,
            ScriptErrorView,
        >(r@),
{
    let line = chars_of(insert_command);
    match parse_insert_result(&line, definitions, idx) {
        Ok(c) => c,
        Err(_) => unreached(),
    }
}

/// `parse_insert`, or why the line cannot be read.
pub fn try_parse_insert(
    insert_command: &str,
    lang: &SupportedLanguage,
    definitions: &Vec<Definition>,
    idx: usize,
) -> (r: Result<LineCommand, ScriptError>)
    ensures
        match r {
            Ok(c) => insert_line_spec(insert_command@, definitions_view(definitions@), idx)
                == Ok::<LineCommandView, ScriptErrorView>(c@),
            Err(e) => insert_line_spec(insert_command@, definitions_view(definitions@), idx)
                == Err::<LineCommandView, ScriptErrorView>(e@),
        },
{
    let line = chars_of(insert_command);
    match parse_insert_result(&line, definitions, idx) {
        Ok(_) => Ok(parse_insert(insert_command, lang, definitions, idx)),
        Err(e) => Err(e),
    }
}

} // verus!
