use mechanical_junior::error::ScriptError;
use mechanical_junior::execute::{
    apply_insert, execute_command, path_names_file, try_execute_command,
};
use mechanical_junior::model::{
    Definition, Finder, FinderOption, InsertCommand, LineCommand, SupportedLanguage,
};
use mechanical_junior::parse::{
    complete_definition, definition_request, parse_def, parse_lang, parse_line, parse_script, try_parse_def,
    try_parse_lang, try_parse_line, DefinitionRequest, ParsedLine, ScriptAction,
};

const KIND: &str = "enum Kind: String {\n    case first = \"first\"\n}\n";

fn chars(s: &str) -> Vec<char> {
    s.chars().collect()
}

fn insert(start: Finder, marker: Finder) -> LineCommand {
    LineCommand::Insert(
        "Kind.swift".to_string(),
        start,
        marker,
        InsertCommand::EnumCaseWithRaw("second".to_string(), "second".to_string()),
    )
}

#[test]
fn insertion_after_a_case() {
    let command = insert(
        Finder::Regex("enum Kind".to_string(), true),
        Finder::LineRegex("case".to_string(), 0),
    );
    assert_eq!(
        execute_command(&command, &SupportedLanguage::Swift, KIND),
        "enum Kind: String {\n    case first = \"first\"\n    case second = \"second\"\n}\n"
    );
}

#[test]
fn insertion_with_fallback_newline() {
    let marker = Finder::LastInSectionOrFallback(
        Box::new(Finder::Regex("missing".to_string(), true)),
        Box::new(Finder::LineRegex("case".to_string(), 0)),
        vec![FinderOption::IfFallbackExtraNewline],
    );
    let command = insert(Finder::Regex("enum Kind".to_string(), true), marker);
    let out = execute_command(&command, &SupportedLanguage::Swift, KIND);
    assert_eq!(out, "enum Kind: String {\n    case first = \"first\"\n    case second = \"second\"\n\n}\n");
    assert!(out.starts_with(&KIND[..44]) && out.ends_with(&KIND[44..]));
}

#[test]
fn execution_errors() {
    let missing = insert(
        Finder::Regex("enum Other".to_string(), true),
        Finder::LineRegex("case".to_string(), 0),
    );
    assert_eq!(try_execute_command(&missing, &SupportedLanguage::Swift, KIND), Err(ScriptError::NoMatch));
    assert_eq!(
        try_execute_command(&LineCommand::Empty, &SupportedLanguage::Swift, KIND),
        Err(ScriptError::NotAnInsert)
    );
    let first_line = insert(Finder::Regex("abc".to_string(), true), Finder::Regex("abc".to_string(), true));
    assert_eq!(
        try_execute_command(&first_line, &SupportedLanguage::Swift, "abc"),
        Err(ScriptError::NoPreviousLine)
    );
    let bad = insert(Finder::Regex("[".to_string(), true), Finder::Regex("a".to_string(), true));
    assert_eq!(try_execute_command(&bad, &SupportedLanguage::Swift, KIND), Err(ScriptError::InvalidPattern));
}

#[test]
fn insertion_skips_empty_lines_for_indentation() {
    let contents = chars("\n\t\tx\n\n\ny");
    let out = apply_insert(
        &InsertCommand::EnumCaseWithRaw("k".to_string(), "r".to_string()),
        &contents,
        7,
        &vec![],
    );
    let out: String = out.into_iter().collect();
    assert_eq!(out, "\n\t\tx\n\n\n\n\t\tcase k = \"r\"y");
}

#[test]
fn def_lines() {
    assert_eq!(
        parse_def("def key \"Enter value\"\n", 1),
        DefinitionRequest { key: "key".to_string(), prompt: "Enter value".to_string() }
    );
    assert_eq!(try_parse_def("def key\n", 1), Err(ScriptError::MalformedDef(1)));
    assert_eq!(try_parse_def("def 'open\n", 1), Err(ScriptError::DefinitionSplitFailed));
    let request = DefinitionRequest { key: "key".to_string(), prompt: "p".to_string() };
    assert_eq!(
        complete_definition(request, "  hello \n"),
        LineCommand::Def(Definition { key: "key".to_string(), value: "hello".to_string() })
    );
}

#[test]
fn lang_lines() {
    assert_eq!(parse_lang(&chars("lang Swift\n"), 0), LineCommand::Lang(SupportedLanguage::Swift));
    assert_eq!(
        try_parse_lang(&chars("lang kotlin\n"), 0),
        Err(ScriptError::UnsupportedLanguage("kotlin".to_string()))
    );
    assert_eq!(try_parse_lang(&chars("lang\n"), 4), Err(ScriptError::MalformedLang(4)));
}

#[test]
fn lines_need_a_language() {
    assert_eq!(
        try_parse_line(&chars("f;a;b;c\n"), &None, &vec![], 0),
        Err(ScriptError::LanguageNotDefined)
    );
    assert_eq!(
        parse_line(&chars("lang swift\n"), &None, &vec![], 0),
        ParsedLine::Command(LineCommand::Lang(SupportedLanguage::Swift))
    );
}

#[test]
fn script_runs_line_by_line() {
    let script = "lang swift\ndef key \"Name\"\nKind.swift;regex(\"enum Kind\", true);lineRegex(\"case\", 0);enumCaseWithRaw(camelCase($key), $key)\n";
    let mut run = parse_script(script);
    assert_eq!(run.language(), None);
    assert_eq!(run.try_step(), Ok(ScriptAction::Continue));
    assert_eq!(run.language(), Some(SupportedLanguage::Swift));
    let request = match run.try_step() {
        Ok(ScriptAction::Ask(r)) => r,
        other => panic!("unexpected {:?}", other),
    };
    assert_eq!(request.prompt, "Name");
    run.define(request, "my_value\n");
    assert_eq!(
        run.definitions(),
        &vec![Definition { key: "key".to_string(), value: "my_value".to_string() }]
    );
    assert_eq!(
        run.try_step(),
        Ok(ScriptAction::Execute(
            LineCommand::Insert(
                "Kind.swift".to_string(),
                Finder::Regex("enum Kind".to_string(), true),
                Finder::LineRegex("case".to_string(), 0),
                InsertCommand::EnumCaseWithRaw("myValue".to_string(), "my_value".to_string())
            ),
            SupportedLanguage::Swift
        ))
    );
    assert_eq!(run.try_step(), Ok(ScriptAction::Finished));
    assert_eq!(run.step(), ScriptAction::Finished);
}

#[test]
fn script_keeps_first_definition() {
    let script = "lang swift\ndef key a\ndef key b\nf;regex(\"x\", true);regex(\"y\", true);enumCaseWithRaw($key, $key)\n";
    let mut run = parse_script(script);
    assert_eq!(run.try_step(), Ok(ScriptAction::Continue));
    for value in ["first", "second"] {
        match run.try_step() {
            Ok(ScriptAction::Ask(r)) => run.define(r, value),
            other => panic!("unexpected {:?}", other),
        }
    }
    match run.try_step() {
        Ok(ScriptAction::Execute(LineCommand::Insert(_, _, _, c), _)) => {
            assert_eq!(c, InsertCommand::EnumCaseWithRaw("first".to_string(), "first".to_string()))
        },
        other => panic!("unexpected {:?}", other),
    }
}

#[test]
fn script_errors_stop_at_the_line() {
    let mut run = parse_script("f;a;b;c\nlang swift\n");
    assert_eq!(run.try_step(), Err(ScriptError::LanguageNotDefined));
    let mut empty = parse_script("");
    assert_eq!(empty.try_step(), Ok(ScriptAction::Finished));
}

#[test]
fn descriptions() {
    assert_eq!(Finder::Regex("a".to_string(), true).describe(), "Finder.Regex(a, before)");
    assert_eq!(Finder::Regex("a".to_string(), false).describe(), "Finder.Regex(a, after)");
    assert_eq!(Finder::LineRegex("x".to_string(), -12).describe(), "Finder.LineRegex(x, offset: -12)");
    assert_eq!(
        Finder::LineRegex("x".to_string(), i32::MIN).describe(),
        "Finder.LineRegex(x, offset: -2147483648)"
    );
    let f = Finder::LastInSectionOrFallback(
        Box::new(Finder::Regex("a".to_string(), true)),
        Box::new(Finder::Regex("b".to_string(), false)),
        vec![FinderOption::IfFallbackExtraNewline, FinderOption::IfFallbackExtraNewline],
    );
    assert_eq!(
        f.describe(),
        "Finder.LastInSectionOrFallback(default: Finder.Regex(a, before), fallback: Finder.Regex(b, after), options: [IfFallbackExtraNewline, IfFallbackExtraNewline])"
    );
    assert_eq!(
        InsertCommand::EnumCaseWithRaw("k".to_string(), "r".to_string()).describe(),
        "Command.EnumCaseWithRaw(k, raw: r)"
    );
    assert_eq!(FinderOption::IfFallbackExtraNewline.describe(), "FinderOption.IfFallbackNewlineBefore");
}

#[test]
fn definition_request_from_words() {
    let words = vec!["def".to_string(), "k".to_string(), "Prompt".to_string()];
    assert_eq!(
        definition_request(Some(words), 0),
        DefinitionRequest { key: "k".to_string(), prompt: "Prompt".to_string() }
    );
}

#[test]
fn files_are_found_by_a_part_of_their_path() {
    assert!(path_names_file("./Sources/Kind.swift", "Kind.swift"));
    assert!(path_names_file("./Sources/Kind.swift", "Sources/Kind"));
    assert!(!path_names_file("./Sources/Kind.swift", "Other.swift"));
    assert!(path_names_file("./a", ""));
}
