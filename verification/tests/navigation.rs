use jumper::app::{App, PendingCursor};
use jumper::config::{Behavior, Config, KeyBindings, SortMode};
use jumper::entry::FileEntry;

fn entry(name: &str, is_dir: bool) -> FileEntry {
    FileEntry {
        name: name.to_string(),
        path: String::new(),
        is_dir,
        is_hidden: name.starts_with('.'),
        is_symlink: false,
        is_executable: false,
        size: 0,
        modified: None,
    }
}

fn config() -> Config {
    Config {
        keybindings: KeyBindings {
            quick_jumps: Vec::new(),
            history_back: "ctrl+o".to_string(),
        },
        behavior: Behavior {
            show_hidden: false,
            default_sort: SortMode::Name,
            delete_confirmation: true,
            flash_duration_ms: 150,
        },
    }
}

fn parent_raw() -> Vec<FileEntry> {
    vec![
        entry("a.txt", false),
        entry("sub", true),
        entry("z.txt", false),
    ]
}

#[test]
fn cursor_stays_in_bounds_through_any_walk() {
    let mut app = App::new(config(), "/root".to_string());
    app.load_directory(vec![
        entry("a", false),
        entry("b", false),
        entry("c", false),
        entry("d", false),
        entry("e", false),
    ]);
    // a long mixed walk, including runs past both edges
    for step in [1, 1, 1, 1, 1, 1, 1, -1, -1, -1, -1, -1, -1, -1, 1, -1, 1, 1] {
        if step > 0 {
            app.next();
        } else {
            app.previous();
        }
        let c = app.cursor.expect("non-empty listing must keep a cursor");
        assert!(c < app.files.len());
    }
}

#[test]
fn empty_listing_has_no_cursor_and_moves_do_nothing() {
    let mut app = App::new(config(), "/root".to_string());
    app.load_directory(Vec::new());
    assert_eq!(app.cursor, None);
    app.next();
    assert_eq!(app.cursor, None);
    app.previous();
    assert_eq!(app.cursor, None);
}

#[test]
fn enter_then_parent_restores_listing_and_reselects() {
    let mut app = App::new(config(), "/root".to_string());
    app.load_directory(parent_raw());
    let before: Vec<String> = app.files.iter().map(|e| e.name.clone()).collect();
    // move onto "sub" (dirs sort first: sub, a.txt, z.txt)
    assert_eq!(app.files[0].name, "sub");
    let entered = app.enter_directory().expect("cursor sits on a directory");
    assert_eq!(entered, "/root/sub");
    assert_eq!(app.current_dir, "/root/sub");
    // the child has its own names and order
    app.load_directory(vec![entry("zz", false), entry("qq", false)]);
    assert_eq!(app.cursor, Some(0));
    let back = app.go_parent().expect("ascent stack has a frame");
    assert_eq!(back, "/root");
    app.load_directory(parent_raw());
    let after: Vec<String> = app.files.iter().map(|e| e.name.clone()).collect();
    assert_eq!(before, after, "the parent listing comes back unchanged");
    let c = app.cursor.expect("cursor lands somewhere");
    assert_eq!(app.files[c].name, "sub", "the entered entry is re-selected");
}

#[test]
fn parent_without_history_falls_back_to_filesystem_parent() {
    let mut app = App::new(config(), "/root/sub".to_string());
    app.load_directory(vec![entry("x", false)]);
    let back = app.go_parent().expect("a non-root path has a parent");
    assert_eq!(back, "/root");
    assert_eq!(app.current_dir, "/root");
    // at the root with no history there is nowhere to go
    let mut root = App::new(config(), "/".to_string());
    root.load_directory(Vec::new());
    assert_eq!(root.go_parent(), None);
}

#[test]
fn go_back_pops_jump_stack_and_clamps_hint() {
    let mut app = App::new(config(), "/root".to_string());
    app.load_directory(parent_raw());
    app.next();
    app.next();  // cursor on row 2
    let entered = app.enter_directory();
    assert_eq!(entered, None, "row 2 is a file");
    app.cursor = Some(0);
    app.enter_directory().expect("row 0 is the directory");
    app.load_directory(vec![entry("inner", false)]);
    let back = app.go_back_in_history().expect("jump stack has the frame");
    assert_eq!(back, "/root");
    // the recorded row was 0; a shorter listing still clamps safely
    app.load_directory(vec![entry("only", false)]);
    assert_eq!(app.cursor, Some(0));
}

#[test]
fn stale_positional_marks_never_survive_a_reload() {
    let mut app = App::new(config(), "/root".to_string());
    app.load_directory(vec![
        entry("a", false),
        entry("b", false),
        entry("c", false),
        entry("d", false),
        entry("e", false),
    ]);
    app.cursor = Some(1);
    app.toggle_mark();
    app.cursor = Some(3);
    app.toggle_mark();
    assert_eq!(app.selected_indices, vec![1, 3]);
    // the directory content changed underneath; positions 1 and 3 would
    // now point at unrelated entries
    app.load_directory(vec![
        entry("x", false),
        entry("y", false),
        entry("z", false),
        entry("w", false),
        entry("v", false),
    ]);
    assert!(app.selected_indices.is_empty());
}

#[test]
fn toggle_hidden_controls_dotfiles() {
    let raw = || vec![entry(".secret", false), entry("plain", false)];
    let mut app = App::new(config(), "/root".to_string());
    app.load_directory(raw());
    assert_eq!(app.files.len(), 1);
    app.toggle_hidden();
    app.load_directory(raw());
    let names: Vec<String> = app.files.iter().map(|e| e.name.clone()).collect();
    assert_eq!(names, vec![".secret", "plain"]);
}

#[test]
fn jump_to_records_the_departure_point() {
    let mut app = App::new(config(), "/root".to_string());
    app.load_directory(parent_raw());
    app.next();
    app.jump_to("/elsewhere".to_string());
    assert_eq!(app.current_dir, "/elsewhere");
    let frame = app.global_history.last().unwrap();
    assert_eq!(frame.path, "/root");
    assert_eq!(frame.selected_index, 1);
    assert!(matches!(app.pending_cursor, PendingCursor::Top));
}

#[test]
fn size_results_merge_only_for_known_paths() {
    let mut app = App::new(config(), "/root".to_string());
    app.load_directory(vec![entry("sub", true), entry("f.txt", false)]);
    assert_eq!(app.dir_sizes.len(), 1);
    assert_eq!(app.dir_sizes[0].path, "/root/sub");
    assert_eq!(app.dir_sizes[0].size, None);
    // a stale result for a path that is no longer listed is dropped
    app.apply_size_result(&"/root/gone".to_string(), 99);
    assert_eq!(app.dir_sizes[0].size, None);
    app.apply_size_result(&"/root/sub".to_string(), 4096);
    assert_eq!(app.dir_sizes[0].size, Some(4096));
}

#[test]
fn selected_path_follows_the_cursor() {
    let mut app = App::new(config(), "/root".to_string());
    app.load_directory(parent_raw());
    assert_eq!(app.get_selected_path(), Some("/root/sub".to_string()));
    app.next();
    assert_eq!(app.get_selected_path(), Some("/root/a.txt".to_string()));
}
