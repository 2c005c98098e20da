use jumper::app::App;
use jumper::config::{Behavior, Config, KeyBindings, SortMode};
use jumper::entry::FileEntry;

fn entry(name: &str, is_dir: bool, size: u64, modified: Option<u64>) -> FileEntry {
    FileEntry {
        name: name.to_string(),
        path: String::new(),
        is_dir,
        is_hidden: name.starts_with('.'),
        is_symlink: false,
        is_executable: false,
        size,
        modified,
    }
}

fn config() -> Config {
    Config {
        keybindings: KeyBindings {
            quick_jumps: Vec::new(),
            history_back: "ctrl+o".to_string(),
        },
        behavior: Behavior {
            show_hidden: false,
            default_sort: SortMode::Name,
            delete_confirmation: true,
            flash_duration_ms: 150,
        },
    }
}

fn fresh(raw: Vec<FileEntry>) -> App {
    let mut app = App::new(config(), "/root".to_string());
    app.load_directory(raw);
    app
}

fn names(app: &App) -> Vec<String> {
    app.files.iter().map(|e| e.name.clone()).collect()
}

#[test]
fn default_sort_groups_dirs_first_by_name() {
    let app = fresh(vec![
        entry("b.txt", false, 10, None),
        entry("a.txt", false, 5, None),
        entry("c", true, 0, None),
    ]);
    assert_eq!(names(&app), vec!["c", "a.txt", "b.txt"]);
}

#[test]
fn descending_name_keeps_dirs_first() {
    let mut app = fresh(vec![
        entry("a.txt", false, 5, None),
        entry("b.txt", false, 10, None),
        entry("c", true, 0, None),
    ]);
    app.sort_ascending = false;
    app.sort_files();
    assert_eq!(names(&app), vec!["c", "b.txt", "a.txt"]);
}

#[test]
fn sorting_twice_is_identical_to_once() {
    let mut app = fresh(vec![
        entry("zz", false, 3, Some(7)),
        entry("b", true, 0, None),
        entry("aa", false, 9, Some(2)),
        entry("AA", false, 1, Some(5)),
        entry("d", true, 0, None),
    ]);
    for key in [SortMode::Name, SortMode::Size, SortMode::Modified] {
        for asc in [true, false] {
            app.sort_mode = key;
            app.sort_ascending = asc;
            app.sort_files();
            let once = names(&app);
            app.sort_files();
            assert_eq!(once, names(&app), "sort must be idempotent");
        }
    }
}

#[test]
fn dirs_always_precede_files() {
    let mut app = fresh(vec![
        entry("z", true, 0, None),
        entry("m.txt", false, 4, Some(1)),
        entry("a", true, 0, None),
        entry("b.txt", false, 9, Some(9)),
    ]);
    for key in [SortMode::Name, SortMode::Size, SortMode::Modified] {
        for asc in [true, false] {
            app.sort_mode = key;
            app.sort_ascending = asc;
            app.sort_files();
            let mut seen_file = false;
            for e in &app.files {
                if !e.is_dir {
                    seen_file = true;
                }
                if e.is_dir {
                    assert!(!seen_file, "a directory after a file under {:?}", key);
                }
            }
        }
    }
}

#[test]
fn size_sort_orders_files_and_keeps_dirs_by_name() {
    let mut app = fresh(vec![
        entry("big", false, 100, None),
        entry("small", false, 1, None),
        entry("zdir", true, 0, None),
        entry("adir", true, 0, None),
        entry("mid", false, 50, None),
    ]);
    app.sort_mode = SortMode::Size;
    app.sort_files();
    assert_eq!(names(&app), vec!["adir", "zdir", "small", "mid", "big"]);
    app.sort_ascending = false;
    app.sort_files();
    assert_eq!(names(&app), vec!["adir", "zdir", "big", "mid", "small"]);
}

#[test]
fn modified_sort_treats_missing_time_as_oldest() {
    let mut app = fresh(vec![
        entry("new", false, 1, Some(100)),
        entry("never", false, 1, None),
        entry("old", false, 1, Some(10)),
    ]);
    app.sort_mode = SortMode::Modified;
    app.sort_files();
    assert_eq!(names(&app), vec!["never", "old", "new"]);
}

#[test]
fn name_sort_is_case_insensitive() {
    let app = fresh(vec![
        entry("Bravo", false, 1, None),
        entry("alpha", false, 1, None),
        entry("Charlie", false, 1, None),
    ]);
    assert_eq!(names(&app), vec!["alpha", "Bravo", "Charlie"]);
}

#[test]
fn sort_remaps_marks_by_path() {
    let mut app = fresh(vec![
        entry("a", false, 3, None),
        entry("b", false, 1, None),
        entry("c", false, 2, None),
    ]);
    // mark "a" (row 0 under name sort)
    app.cursor = Some(0);
    app.toggle_mark();
    assert_eq!(app.selected_indices, vec![0]);
    app.sort_mode = SortMode::Size;
    app.sort_files();
    // under size sort "a" (size 3) sits last; the mark follows it
    assert_eq!(names(&app), vec!["b", "c", "a"]);
    assert_eq!(app.selected_indices, vec![2]);
}
