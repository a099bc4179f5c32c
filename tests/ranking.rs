use fuzzy_search::top_matches::get_top_matches;

fn store(items: &[(i64, &str)]) -> Vec<(i64, String)> {
    items.iter().map(|(s, t)| (*s, t.to_string())).collect()
}

#[test]
fn empty_store_gives_empty_frame() {
    let mut matches: Vec<(i64, String)> = Vec::new();
    let (shown, extra) = get_top_matches(&mut matches);
    assert!(shown.is_empty());
    assert_eq!(extra, 0);
}

#[test]
fn ten_matches_have_no_extra() {
    let mut matches: Vec<(i64, String)> = (0..10).map(|i| (i as i64, format!("m{}", i))).collect();
    let (shown, extra) = get_top_matches(&mut matches);
    assert_eq!(shown.len(), 10);
    assert_eq!(extra, 0);
    assert_eq!(shown[0], "m9");
    assert_eq!(shown[9], "m0");
}

#[test]
fn twelve_matches_show_the_ten_best() {
    let mut matches: Vec<(i64, String)> = (0..12).map(|i| (i as i64, format!("m{}", i))).collect();
    let (shown, extra) = get_top_matches(&mut matches);
    let expected: Vec<String> = (2..12).rev().map(|i| format!("m{}", i)).collect();
    assert_eq!(shown, expected);
    assert_eq!(extra, 2);
}

#[test]
fn ties_keep_their_store_order() {
    let mut matches = store(&[(5, "a"), (7, "b"), (5, "c"), (7, "d"), (-1, "e"), (5, "f")]);
    let (shown, extra) = get_top_matches(&mut matches);
    assert_eq!(shown, vec!["b", "d", "a", "c", "f", "e"]);
    assert_eq!(extra, 0);
    assert_eq!(
        matches,
        store(&[(5, "a"), (7, "b"), (5, "c"), (7, "d"), (-1, "e"), (5, "f")])
    );
}

#[test]
fn repeated_ranking_gives_the_same_frame() {
    let mut matches: Vec<(i64, String)> = (0..15).map(|i| ((i % 4) as i64, format!("m{}", i))).collect();
    let before = matches.clone();
    let first = get_top_matches(&mut matches);
    assert_eq!(matches, before);
    let second = get_top_matches(&mut matches);
    assert_eq!(first, second);
    assert_eq!(first.1, 5);
    assert_eq!(
        first.0,
        vec!["m3", "m7", "m11", "m2", "m6", "m10", "m14", "m1", "m5", "m9"]
    );
    let mut fresh: Vec<(i64, String)> = (0..15).map(|i| ((i % 4) as i64, format!("m{}", i))).collect();
    assert_eq!(get_top_matches(&mut fresh), first);
}

#[test]
fn one_match_is_shown_alone() {
    let mut matches = store(&[(3, "only")]);
    let (shown, extra) = get_top_matches(&mut matches);
    assert_eq!(shown, vec!["only"]);
    assert_eq!(extra, 0);
}
