use mechanical_junior::command_parser::{
    parse_command, parse_command_arg, parse_finder, parse_finder_option, parse_insert,
    separate_by_toplevel_commas, try_parse_command, try_separate_by_toplevel_commas, try_parse_command_arg, try_parse_finder,
    try_parse_finder_option, try_parse_insert,
};
use mechanical_junior::error::ScriptError;
use mechanical_junior::model::{
    Definition, Finder, FinderOption, InsertCommand, LineCommand, SupportedLanguage,
};
use mechanical_junior::string_utils::{paren_contents, remove_paren_contents};

fn chars(s: &str) -> Vec<char> {
    s.chars().collect()
}

fn pieces(v: Vec<Vec<char>>) -> Vec<String> {
    v.into_iter().map(|p| p.into_iter().collect()).collect()
}

fn defs() -> Vec<Definition> {
    vec![Definition { key: "key".to_string(), value: "my_value".to_string() }]
}

#[test]
fn remove_paren_contents_keeps_the_outside() {
    assert_eq!(remove_paren_contents("abc(def)gh"), "abcgh");
    assert_eq!(
        remove_paren_contents("enumCaseWithRaw(camelCase($key), $key)\n"),
        "enumCaseWithRaw\n"
    );
    assert_eq!(remove_paren_contents(")("), ")(");
}

#[test]
fn paren_contents_keeps_the_inside() {
    assert_eq!(paren_contents("abc(def)gh"), "def");
    assert_eq!(paren_contents("enumCaseWithRaw(camelCase($key), $key)\n"), "camelCase($key), $key");
    assert_eq!(paren_contents("f()"), "");
}

#[test]
fn paren_errors() {
    assert_eq!(try_parse_finder(&chars("regex)"), 0), Err(ScriptError::NoOpenParen("regex)".to_string())));
    assert_eq!(try_parse_finder(&chars("ab(c"), 0), Err(ScriptError::NoCloseParen("ab(c".to_string())));
    assert_eq!(try_parse_finder(&chars("a)(b"), 0), Err(ScriptError::ParensOutOfOrder("a)(b".to_string())));
}

#[test]
fn parens_partition_the_text() {
    let s = "f(a(b)c)d";
    let outside = remove_paren_contents(s);
    let inside = paren_contents(s);
    assert_eq!(outside, "fd");
    assert_eq!(inside, "a(b)c");
    assert_eq!(format!("{}({}){}", &outside[..1], inside, &outside[1..]), s);
}

#[test]
fn toplevel_commas_split_and_trim() {
    assert_eq!(
        pieces(separate_by_toplevel_commas(&chars(" a , b(c,d) ,e"))),
        vec!["a".to_string(), "b(c,d)".to_string(), "e".to_string()]
    );
    assert_eq!(pieces(separate_by_toplevel_commas(&chars(",,a"))), vec!["a".to_string()]);
    assert_eq!(
        pieces(separate_by_toplevel_commas(&chars(" ,a"))),
        vec!["".to_string(), "a".to_string()]
    );
    assert_eq!(pieces(separate_by_toplevel_commas(&chars("),"))), vec![")".to_string()]);
    assert_eq!(pieces(separate_by_toplevel_commas(&chars(""))), Vec::<String>::new());
}

#[test]
fn toplevel_pieces_are_trimmed() {
    let out = pieces(separate_by_toplevel_commas(&chars("  x\t,\u{a0}y z  ")));
    for p in &out {
        assert_eq!(p.trim(), p.as_str());
    }
    assert_eq!(out, vec!["x".to_string(), "y z".to_string()]);
}

#[test]
fn toplevel_commas_depth_limit() {
    let fits: String = std::iter::repeat('(').take(32767).collect();
    assert_eq!(pieces(separate_by_toplevel_commas(&chars(&fits))), vec![fits.clone()]);
}

#[test]
fn finder_option_in_any_case() {
    assert_eq!(
        parse_finder_option(&chars("IfFallbackNewlineBefore"), 0),
        FinderOption::IfFallbackExtraNewline
    );
    assert_eq!(
        try_parse_finder_option(&chars("other"), 4),
        Err(ScriptError::InvalidFinderOption("other".to_string(), 4))
    );
}

#[test]
fn finders_are_read() {
    assert_eq!(
        parse_finder(&chars(r#"regex("case unused", true)"#), 3),
        Finder::Regex("case unused".to_string(), true)
    );
    assert_eq!(
        parse_finder(&chars(r#"lineRegex("x", -2)"#), 3),
        Finder::LineRegex("x".to_string(), -2)
    );
    assert_eq!(
        parse_finder(
            &chars(r#"lastInSectionOrFallback(regex("a", true), lineRegex("b", 1), ifFallbackNewlineBefore)"#),
            3
        ),
        Finder::LastInSectionOrFallback(
            Box::new(Finder::Regex("a".to_string(), true)),
            Box::new(Finder::LineRegex("b".to_string(), 1)),
            vec![FinderOption::IfFallbackExtraNewline]
        )
    );
}

#[test]
fn finder_errors() {
    assert_eq!(
        try_parse_finder(&chars(r#"regex("a")"#), 7),
        Err(ScriptError::NotEnoughFinderArguments("regex".to_string(), 7))
    );
    assert_eq!(
        try_parse_finder(&chars("regex"), 7),
        Err(ScriptError::NotEnoughFinderArguments("regex".to_string(), 7))
    );
    assert_eq!(try_parse_finder(&chars(r#"lineRegex("a", x)"#), 7), Err(ScriptError::ExpectedInteger(7)));
    assert_eq!(
        try_parse_finder(&chars(r#"lineRegex("a", 99999999999)"#), 7),
        Err(ScriptError::ExpectedInteger(7))
    );
    assert_eq!(try_parse_finder(&chars(r#"regex("a", yes)"#), 7), Err(ScriptError::ExpectedBoolean(7)));
    assert_eq!(try_parse_finder(&chars("regex(a, true)"), 7), Err(ScriptError::UnquotedPattern));
    assert_eq!(
        try_parse_finder(&chars(r#"find("a", true)"#), 7),
        Err(ScriptError::InvalidFinder(7, "find".to_string()))
    );
    assert_eq!(
        try_parse_finder(&chars(r#"lastInSectionOrFallback(regex("a", true), regex("b", true), bogus)"#), 7),
        Err(ScriptError::InvalidFinderOption("bogus".to_string(), 7))
    );
    assert_eq!(try_parse_finder(&chars("regex(\"a\", true"), 7), Err(ScriptError::NoCloseParen("regex(\"a\", true".to_string())));
}

#[test]
fn offsets_read_back_from_descriptions() {
    for n in [-12, 0, 7, i32::MAX, i32::MIN] {
        let f = Finder::LineRegex("x".to_string(), n);
        let text = f.describe();
        let offset = text.trim_start_matches("Finder.LineRegex(x, offset: ").trim_end_matches(')');
        let reread = parse_finder(&chars(&format!("lineRegex(\"x\", {})", offset)), 0);
        assert_eq!(reread, Finder::LineRegex("x".to_string(), n));
    }
}

#[test]
fn command_arguments() {
    let d = defs();
    let text = |s: &str| try_parse_command_arg(&chars(s), &d).map(|v| v.into_iter().collect::<String>());
    let plain: String = parse_command_arg(&chars("camelCase($key)"), &d).into_iter().collect();
    assert_eq!(plain, "myValue");
    assert_eq!(text("camelCase($key)"), Ok("myValue".to_string()));
    assert_eq!(text("$key"), Ok("my_value".to_string()));
    assert_eq!(text("plain"), Ok("plain".to_string()));
    assert_eq!(text("$missing"), Err(ScriptError::NoDefinition("missing".to_string())));
    assert_eq!(text("a$b"), Err(ScriptError::MisplacedDollar));
    assert_eq!(text("upper($key)"), Err(ScriptError::InvalidCommand("upper".to_string())));
    assert_eq!(text("camelCase()"), Err(ScriptError::CamelCaseWithoutArgument));
}

#[test]
fn first_definition_of_a_key_wins() {
    let d = vec![
        Definition { key: "key".to_string(), value: "first".to_string() },
        Definition { key: "key".to_string(), value: "second".to_string() },
    ];
    let v: String = parse_command_arg(&chars("$key"), &d).into_iter().collect();
    assert_eq!(v, "first");
}

#[test]
fn insertion_commands() {
    assert_eq!(
        parse_command(&chars("enumCaseWithRaw(camelCase($key), $key)\n"), &defs(), 2),
        InsertCommand::EnumCaseWithRaw("myValue".to_string(), "my_value".to_string())
    );
    assert_eq!(
        try_parse_command(&chars("enumCaseWithRaw(a)"), &defs(), 2),
        Err(ScriptError::WrongCommandArgumentCount(2))
    );
    assert_eq!(
        try_parse_command(&chars("other(a, b)"), &defs(), 2),
        Err(ScriptError::CommandNotFound("other".to_string(), 2))
    );
}

#[test]
fn insertion_lines() {
    let line = "Kind.swift;regex(\"enum Kind\", true);lineRegex(\"case\", 0);enumCaseWithRaw(camelCase($key), $key)\n";
    assert_eq!(
        parse_insert(line, &SupportedLanguage::Swift, &defs(), 5),
        LineCommand::Insert(
            "Kind.swift".to_string(),
            Finder::Regex("enum Kind".to_string(), true),
            Finder::LineRegex("case".to_string(), 0),
            InsertCommand::EnumCaseWithRaw("myValue".to_string(), "my_value".to_string())
        )
    );
    assert_eq!(
        try_parse_insert("a;b\n", &SupportedLanguage::Swift, &defs(), 0),
        Err(ScriptError::NotEnoughInsertArguments(0))
    );
    assert_eq!(
        try_parse_insert("\n", &SupportedLanguage::Swift, &defs(), 9),
        Err(ScriptError::NotEnoughInsertArguments(9))
    );
    assert_eq!(
        try_parse_insert("f.swift;regex(\"a\", true);regex(\"b\", true)\n", &SupportedLanguage::Swift, &defs(), 1),
        Err(ScriptError::MissingInsertCommand(1))
    );
}

#[test]
fn nesting_too_deep_for_the_counter() {
    let inner: String = std::iter::repeat('(').take(32768).collect();
    let text = format!("regex({})", inner);
    assert_eq!(try_parse_finder(&chars(&text), 0), Err(ScriptError::NestingTooDeep));
}

#[test]
fn toplevel_commas_checked_form() {
    let deep: String = std::iter::repeat('(').take(32768).collect();
    assert_eq!(try_separate_by_toplevel_commas(&chars(&deep)), None);
    let closing: String = std::iter::repeat(')').take(32769).collect();
    assert_eq!(try_separate_by_toplevel_commas(&chars(&closing)), None);
    assert_eq!(
        try_separate_by_toplevel_commas(&chars("a,b")).map(pieces),
        Some(vec!["a".to_string(), "b".to_string()])
    );
}

#[test]
fn names_are_lowercased() {
    let d = defs();
    let upper: String = parse_command_arg(&chars(" CAMELCASE ($key)"), &d).into_iter().collect();
    assert_eq!(upper, "myValue");
    assert_eq!(
        try_parse_command(&chars("ÉNUM(a, b)"), &d, 3),
        Err(ScriptError::CommandNotFound("énum".to_string(), 3))
    );
    assert_eq!(
        try_parse_command(&chars("ENUM(a, b)"), &d, 3),
        Err(ScriptError::CommandNotFound("enum".to_string(), 3))
    );
}
