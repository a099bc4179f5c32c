use fuzzy_search::after_search::AfterSearchOption;
use fuzzy_search::searcher::{FrameRenderer, MatchStore};

fn lines(items: &[&str]) -> Vec<String> {
    items.iter().map(|s| s.to_string()).collect()
}

#[test]
fn identical_frame_is_not_redrawn() {
    let mut r = FrameRenderer::new();
    assert!(r.observe(&lines(&["x", "y"])));
    assert!(!r.observe(&lines(&["x", "y"])));
    assert!(!r.observe(&lines(&["x", "y"])));
}

#[test]
fn changed_frame_is_redrawn() {
    let mut r = FrameRenderer::new();
    assert!(!r.observe(&Vec::new()));
    assert!(r.observe(&lines(&["x"])));
    assert!(r.observe(&lines(&["y"])));
    assert!(r.observe(&lines(&["y", "x"])));
    assert!(r.observe(&lines(&["x", "y"])));
    assert!(!r.observe(&lines(&["x", "y"])));
}

#[test]
fn store_snapshot_holds_appends_in_order() {
    let mut store = MatchStore::new();
    assert_eq!(store.len(), 0);
    store.append((3, "a".to_string()));
    store.append_all(vec![(1, "b".to_string()), (2, "c".to_string())]);
    assert_eq!(
        store.snapshot(),
        vec![(3, "a".to_string()), (1, "b".to_string()), (2, "c".to_string())]
    );
    assert_eq!(store.len(), 3);
}

#[test]
fn after_search_options_by_name() {
    assert_eq!(AfterSearchOption::from_name("Show All"), Some(AfterSearchOption::ShowAll));
    assert_eq!(AfterSearchOption::from_name("Filter"), Some(AfterSearchOption::Filter));
    assert_eq!(AfterSearchOption::from_name("ShowAll"), None);
    assert_eq!(AfterSearchOption::from_name("filter"), None);
    assert_eq!(AfterSearchOption::variants(), vec!["Show All", "Filter"]);
    assert_eq!(AfterSearchOption::Filter.name(), "Filter");
}
