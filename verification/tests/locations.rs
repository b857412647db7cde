use mechanical_junior::error::ScriptError;
use mechanical_junior::model::{Finder, FinderOption};
use mechanical_junior::string_utils::{
    get_location_in_string, line_location_chars, regex_location_chars,
    try_get_location_in_string, FinderError,
};

fn regex(p: &str, before: bool) -> Finder {
    Finder::Regex(p.to_string(), before)
}

fn line(p: &str, offset: i32) -> Finder {
    Finder::LineRegex(p.to_string(), offset)
}

#[test]
fn regex_locations() {
    let hay = "hello world\n";
    assert_eq!(get_location_in_string(hay, &regex("world", true)), (Ok(6), vec![]));
    assert_eq!(get_location_in_string(hay, &regex("world", false)), (Ok(11), vec![]));
    assert_eq!(get_location_in_string(hay, &regex("w.rld", true)), (Ok(6), vec![]));
    assert_eq!(get_location_in_string(hay, &regex("xyz", true)), (Err(FinderError::NoMatches), vec![]));
    assert_eq!(try_get_location_in_string(hay, &regex("(", true)), Err(ScriptError::InvalidPattern));
}

#[test]
fn locations_are_byte_offsets() {
    assert_eq!(get_location_in_string("é world", &regex("world", true)), (Ok(3), vec![]));
}

#[test]
fn line_regex_forward() {
    let hay = "a\nb\nc\n";
    assert_eq!(get_location_in_string(hay, &line("b", 0)), (Ok(3), vec![]));
    assert_eq!(get_location_in_string(hay, &line("b", 1)), (Ok(5), vec![]));
    assert_eq!(try_get_location_in_string(hay, &line("b", 2)), Err(ScriptError::LineIndexOutOfRange));
    assert_eq!(get_location_in_string(hay, &line("b", 3)), (Err(FinderError::InvalidOffset), vec![]));
}

#[test]
fn line_regex_backward() {
    let hay = "a\nb\nc\nd";
    assert_eq!(get_location_in_string(hay, &line("d", -1)), (Ok(3), vec![]));
    assert_eq!(try_get_location_in_string(hay, &line("d", -3)), Err(ScriptError::LineIndexOutOfRange));
    assert_eq!(get_location_in_string(hay, &line("d", -4)), (Err(FinderError::InvalidOffset), vec![]));
    assert_eq!(try_get_location_in_string(hay, &line("d", i32::MIN)), Err(ScriptError::OffsetOverflow));
}

#[test]
fn fallback_finder() {
    let hay = "a\nb\n";
    let f = Finder::LastInSectionOrFallback(
        Box::new(regex("zzz", true)),
        Box::new(regex("b", true)),
        vec![FinderOption::IfFallbackExtraNewline],
    );
    assert_eq!(get_location_in_string(hay, &f), (Ok(2), vec![FinderOption::IfFallbackExtraNewline]));
    let g = Finder::LastInSectionOrFallback(
        Box::new(regex("a", true)),
        Box::new(regex("b", true)),
        vec![FinderOption::IfFallbackExtraNewline],
    );
    assert_eq!(get_location_in_string(hay, &g), (Ok(0), vec![]));
    let h = Finder::LastInSectionOrFallback(
        Box::new(regex("(", true)),
        Box::new(regex("b", true)),
        vec![],
    );
    assert_eq!(try_get_location_in_string(hay, &h), Err(ScriptError::InvalidPattern));
}

#[test]
fn locations_from_matched_text() {
    let hay: Vec<char> = "abc\nabc\n".chars().collect();
    assert_eq!(regex_location_chars(&hay, Some("bc".chars().collect()), false), (Ok(3), vec![]));
    assert_eq!(regex_location_chars(&hay, None, true), (Err(FinderError::NoMatches), vec![]));
    assert_eq!(line_location_chars(&hay, Some("c".chars().collect()), 1), (Ok(7), vec![]));
}
