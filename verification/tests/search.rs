use jumper::app::App;
use jumper::config::{Behavior, Config, KeyBindings, SortMode};
use jumper::entry::FileEntry;
use jumper::fuzzy::update_search;

fn entry(name: &str) -> FileEntry {
    FileEntry {
        name: name.to_string(),
        path: String::new(),
        is_dir: false,
        is_hidden: false,
        is_symlink: false,
        is_executable: false,
        size: 0,
        modified: None,
    }
}

fn config() -> Config {
    Config {
        keybindings: KeyBindings {
            quick_jumps: Vec::new(),
            history_back: "ctrl+o".to_string(),
        },
        behavior: Behavior {
            show_hidden: false,
            default_sort: SortMode::Name,
            delete_confirmation: true,
            flash_duration_ms: 150,
        },
    }
}

fn fresh(names: &[&str]) -> App {
    let mut app = App::new(config(), "/root".to_string());
    app.load_directory(names.iter().map(|n| entry(n)).collect());
    app
}

#[test]
fn empty_query_clears_highlights_and_keeps_cursor() {
    let mut app = fresh(&["alpha", "beta", "gamma"]);
    app.next();
    app.search_query = "a".to_string();
    update_search(&mut app);
    assert!(!app.search_highlights.is_empty());
    let at_match = app.cursor;
    app.search_query = String::new();
    update_search(&mut app);
    assert!(app.search_highlights.is_empty());
    assert!(app.search_match_positions.is_empty());
    assert_eq!(app.files.len(), 3, "the listing itself is never filtered");
    assert_eq!(app.cursor, at_match, "an empty query leaves the cursor alone");
}

#[test]
fn unmatched_query_leaves_cursor_and_no_highlights() {
    let mut app = fresh(&["alpha", "beta"]);
    app.next();
    app.search_query = "zzz".to_string();
    update_search(&mut app);
    assert!(app.search_highlights.is_empty());
    assert_eq!(app.cursor, Some(1));
}

#[test]
fn cursor_jumps_to_the_best_match() {
    let mut app = fresh(&["xray", "abc", "cab"]);
    app.search_query = "ab".to_string();
    update_search(&mut app);
    // "abc" matches "ab" contiguously from the start and wins
    let c = app.cursor.unwrap();
    assert_eq!(app.files[c].name, "abc");
    assert!(app.search_highlights.contains(&c));
}

#[test]
fn match_positions_name_the_matched_offsets() {
    let mut app = fresh(&["axbycz"]);
    app.search_query = "abc".to_string();
    update_search(&mut app);
    assert_eq!(app.search_highlights, vec![0]);
    assert_eq!(app.search_match_positions.len(), 1);
    assert_eq!(app.search_match_positions[0].index, 0);
    assert_eq!(app.search_match_positions[0].positions, vec![0, 2, 4]);
}

#[test]
fn highlights_are_ascending_listing_positions() {
    let mut app = fresh(&["nab", "zzz", "abs", "tab"]);
    app.search_query = "ab".to_string();
    update_search(&mut app);
    // every name holding the subsequence is annotated, in listing order
    let mut sorted = app.search_highlights.clone();
    sorted.sort();
    assert_eq!(app.search_highlights, sorted);
    assert_eq!(app.search_highlights.len(), 3);
    for &i in &app.search_highlights {
        assert_ne!(app.files[i].name, "zzz");
    }
}

#[test]
fn reload_recomputes_annotations_for_the_new_listing() {
    let mut app = fresh(&["alpha", "beta"]);
    app.search_query = "al".to_string();
    update_search(&mut app);
    assert_eq!(app.search_highlights, vec![0]);
    // same directory reloaded with different content: the stale row
    // annotations must not survive as positions into the new listing
    app.load_directory(vec![entry("beta"), entry("halt")]);
    assert_eq!(app.search_highlights, vec![1]);
    assert_eq!(app.files[app.search_highlights[0]].name, "halt");
}
