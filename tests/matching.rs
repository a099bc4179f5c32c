use fuzzy_search::matcher::Matcher;
use fuzzy_search::searcher::{EntryInfo, MatchStore, Searcher};
use fuzzy_search::str_ext::StrExt;
use fuzzy_search::top_matches::get_top_matches;

const ON: &str = "\x1B[1;31m";
const OFF: &str = "\x1B[0m";

fn colour_on() {
    colored::control::set_override(true);
}

fn entry(name: &str, parent: &str, is_dir: bool) -> EntryInfo {
    EntryInfo { name: name.to_string(), parent: parent.to_string(), is_dir }
}

fn painted(c: char) -> String {
    format!("{}{}{}", ON, c, OFF)
}

#[test]
fn empty_query_matches_with_score_zero() {
    let m = Matcher::new(String::new());
    assert_eq!(m.fmatch("anything"), Some((0, Vec::new())));
}

#[test]
fn query_matches_subsequence_only() {
    let m = Matcher::new("fo".to_string());
    let (score, indices) = m.fmatch("foo.txt").unwrap();
    assert!(score > 0);
    assert_eq!(indices, vec![0, 1]);
    assert_eq!(m.fmatch("file1.txt"), None);
    assert_eq!(m.fmatch("bar.log"), None);
}

#[test]
fn colorize_paints_matched_positions() {
    colour_on();
    let r = "abc".colorize_matches(vec![0, 2]);
    assert_eq!(r, format!("{}b{}", painted('a'), painted('c')));
    assert_eq!("abc".colorize_matches(Vec::new()), "abc");
}

#[test]
fn check_match_builds_display_text() {
    colour_on();
    let s = Searcher::new("/root".to_string(), "fo".to_string(), false);
    let (score, text) = s.check_match("foo.txt", "a", false).unwrap();
    assert!(score > 0);
    assert_eq!(text, format!(".\\a\\{}{}o.txt", painted('f'), painted('o')));
    assert_eq!(s.check_match("file1.txt", "a", false), None);
}

#[test]
fn end_to_end_tree_gives_one_match() {
    colour_on();
    let s = Searcher::new("/root".to_string(), "fo".to_string(), true);
    assert!(s.verbose());
    assert_eq!(s.base_dir(), "/root");
    let mut store = MatchStore::new();
    let root = vec![entry("a", "", true), entry("b", "", true)];
    let a = vec![entry("file1.txt", "a", false), entry("foo.txt", "a", false)];
    let b = vec![entry("bar.log", "b", false)];
    for listing in [&root, &a, &b] {
        store.append_all(s.collect_matches(listing));
    }
    assert_eq!(store.len(), 1);
    let mut snapshot = store.snapshot();
    let (shown, extra) = get_top_matches(&mut snapshot);
    assert_eq!(shown, vec![format!(".\\a\\{}{}o.txt", painted('f'), painted('o'))]);
    assert_eq!(extra, 0);
}

#[test]
fn listing_order_does_not_change_matches() {
    colour_on();
    let s = Searcher::new(".".to_string(), "ab".to_string(), false);
    let forward = vec![entry("xab", "d", false), entry("zz", "d", false), entry("ab", "d", true)];
    let backward = vec![entry("ab", "d", true), entry("zz", "d", false), entry("xab", "d", false)];
    let mut f: Vec<String> = s.collect_matches(&forward).into_iter().map(|c| c.1).collect();
    let mut g: Vec<String> = s.collect_matches(&backward).into_iter().map(|c| c.1).collect();
    assert_eq!(f.len(), 2);
    f.sort();
    g.sort();
    assert_eq!(f, g);
}

#[test]
fn format_candidate_paints_given_positions() {
    colour_on();
    let c = fuzzy_search::searcher::format_candidate("ab", "", 9, vec![1]);
    assert_eq!(c, (9, format!(".\\\\a{}", painted('b'))));
}

#[test]
fn capital_in_query_makes_match_case_sensitive() {
    let lower = Matcher::new("fo".to_string());
    assert!(lower.fmatch("FOO.txt").is_some());
    let upper = Matcher::new("FO".to_string());
    assert_eq!(upper.fmatch("foo.txt"), None);
    assert!(upper.fmatch("xFyO").is_some());
}

#[test]
fn match_positions_increase_within_text() {
    let m = Matcher::new("ace".to_string());
    let (_, indices) = m.fmatch("abcde").unwrap();
    assert_eq!(indices, vec![0, 2, 4]);
    assert_eq!(m.fmatch("aec"), None);
}
