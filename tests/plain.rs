use fuzzy_search::searcher::Searcher;
use fuzzy_search::str_ext::StrExt;

#[test]
fn colorize_without_colour_keeps_text() {
    colored::control::set_override(false);
    assert_eq!("foo.txt".colorize_matches(vec![0, 1]), "foo.txt");
}

#[test]
fn display_text_without_colour() {
    colored::control::set_override(false);
    let s = Searcher::new(".".to_string(), "fo".to_string(), false);
    let (_, text) = s.check_match("foo", "a\\b", true).unwrap();
    assert_eq!(text, ".\\a\\b\\foo");
}

#[test]
fn format_candidate_without_colour() {
    colored::control::set_override(false);
    let c = fuzzy_search::searcher::format_candidate("notes.md", "docs", -4, vec![1, 3]);
    assert_eq!(c, (-4, ".\\docs\\notes.md".to_string()));
}
