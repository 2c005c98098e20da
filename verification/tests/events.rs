use jumper::app::{App, ClipboardOperation, Mode};
use jumper::config::{Behavior, Config, KeyBindings, SortMode};
use jumper::entry::FileEntry;
use jumper::events::{format_key, handle_key_event, matches_keybinding, Action, KeyCode, KeyEvent};

fn entry(name: &str, is_dir: bool) -> FileEntry {
    FileEntry {
        name: name.to_string(),
        path: String::new(),
        is_dir,
        is_hidden: name.starts_with('.'),
        is_symlink: false,
        is_executable: false,
        size: 0,
        modified: None,
    }
}

fn config(confirm: bool) -> Config {
    Config {
        keybindings: KeyBindings {
            quick_jumps: vec![("gh".to_string(), "/home/me".to_string())],
            history_back: "ctrl+o".to_string(),
        },
        behavior: Behavior {
            show_hidden: false,
            default_sort: SortMode::Name,
            delete_confirmation: confirm,
            flash_duration_ms: 150,
        },
    }
}

fn fresh(confirm: bool) -> App {
    let mut app = App::new(config(confirm), "/root".to_string());
    app.load_directory(vec![
        entry("a.txt", false),
        entry("b.txt", false),
        entry("c.txt", false),
        entry("d.txt", false),
        entry("e.txt", false),
    ]);
    app
}

fn key(c: char) -> KeyEvent {
    KeyEvent { code: KeyCode::Char(c), ctrl: false, shift: false, alt: false }
}

fn special(code: KeyCode) -> KeyEvent {
    KeyEvent { code, ctrl: false, shift: false, alt: false }
}

#[test]
fn keybinding_needs_exact_modifier_set() {
    let ctrl_o = KeyEvent { code: KeyCode::Char('o'), ctrl: true, shift: false, alt: false };
    let plain_o = key('o');
    let ctrl_shift_o = KeyEvent { code: KeyCode::Char('o'), ctrl: true, shift: true, alt: false };
    assert!(matches_keybinding(&ctrl_o, "ctrl+o"));
    assert!(!matches_keybinding(&plain_o, "ctrl+o"));
    assert!(!matches_keybinding(&ctrl_shift_o, "ctrl+o"));
    assert!(!matches_keybinding(&ctrl_o, "o"));
    assert!(matches_keybinding(&plain_o, "o"));
}

#[test]
fn keybinding_parse_is_case_insensitive() {
    let ctrl_o = KeyEvent { code: KeyCode::Char('o'), ctrl: true, shift: false, alt: false };
    assert!(matches_keybinding(&ctrl_o, "CTRL+o"));
    assert!(matches_keybinding(&ctrl_o, "Control+O"));
    let alt_x = KeyEvent { code: KeyCode::Char('x'), ctrl: false, shift: false, alt: true };
    assert!(matches_keybinding(&alt_x, "Alt+X"));
}

#[test]
fn format_key_uppercases_under_shift() {
    assert_eq!(format_key(&key('v')), "v");
    let shifted = KeyEvent { code: KeyCode::Char('v'), ctrl: false, shift: true, alt: false };
    assert_eq!(format_key(&shifted), "V");
    assert_eq!(format_key(&special(KeyCode::Esc)), "");
}

#[test]
fn quit_key_sets_the_flag() {
    let mut app = fresh(true);
    let a = handle_key_event(&mut app, key('q'));
    assert_eq!(a, Action::Nothing);
    assert!(app.should_quit);
}

#[test]
fn navigation_keys_move_the_cursor() {
    let mut app = fresh(true);
    assert_eq!(app.cursor, Some(0));
    handle_key_event(&mut app, key('j'));
    handle_key_event(&mut app, key('j'));
    assert_eq!(app.cursor, Some(2));
    handle_key_event(&mut app, key('k'));
    assert_eq!(app.cursor, Some(1));
    handle_key_event(&mut app, special(KeyCode::Up));
    handle_key_event(&mut app, special(KeyCode::Up));
    assert_eq!(app.cursor, Some(0), "the cursor stops at the top");
}

#[test]
fn delete_with_confirmation_holds_exact_targets() {
    let mut app = fresh(true);
    // mark rows 1 and 3
    handle_key_event(&mut app, key('j'));
    handle_key_event(&mut app, key('m'));
    handle_key_event(&mut app, key('j'));
    handle_key_event(&mut app, key('j'));
    handle_key_event(&mut app, key('m'));
    assert_eq!(app.selected_indices, vec![1, 3]);
    let a = handle_key_event(&mut app, key('d'));
    assert_eq!(a, Action::Nothing);
    assert_eq!(app.mode, Mode::DeleteConfirm);
    assert_eq!(app.delete_targets, vec!["/root/b.txt", "/root/d.txt"]);
    // later movement keys are consumed by the prompt and cannot alter it
    handle_key_event(&mut app, key('j'));
    assert_eq!(app.delete_targets, vec!["/root/b.txt", "/root/d.txt"]);
    // confirming hands exactly those two out and clears the marks
    let a = handle_key_event(&mut app, key('y'));
    assert_eq!(
        a,
        Action::DeletePaths(vec!["/root/b.txt".to_string(), "/root/d.txt".to_string()])
    );
    assert_eq!(app.mode, Mode::Normal);
    assert!(app.delete_targets.is_empty());
    assert!(app.selected_indices.is_empty());
}

#[test]
fn cancelling_delete_keeps_marks_and_drops_targets() {
    let mut app = fresh(true);
    handle_key_event(&mut app, key('m'));
    handle_key_event(&mut app, key('j'));
    handle_key_event(&mut app, key('m'));
    assert_eq!(app.selected_indices, vec![0, 1]);
    handle_key_event(&mut app, key('d'));
    assert_eq!(app.mode, Mode::DeleteConfirm);
    let a = handle_key_event(&mut app, key('n'));
    assert_eq!(a, Action::Nothing);
    assert_eq!(app.mode, Mode::Normal);
    assert!(app.delete_targets.is_empty());
    assert_eq!(app.selected_indices, vec![0, 1], "cancel leaves the marks alone");
}

#[test]
fn delete_without_confirmation_is_immediate() {
    let mut app = fresh(false);
    let a = handle_key_event(&mut app, key('d'));
    assert_eq!(a, Action::DeletePaths(vec!["/root/a.txt".to_string()]));
    assert_eq!(app.mode, Mode::Normal);
}

#[test]
fn double_y_copies_the_cursor_row() {
    let mut app = fresh(true);
    handle_key_event(&mut app, key('j'));
    handle_key_event(&mut app, key('y'));
    assert_eq!(app.clipboard, ClipboardOperation::Empty);
    handle_key_event(&mut app, key('y'));
    assert_eq!(
        app.clipboard,
        ClipboardOperation::Copy(vec!["/root/b.txt".to_string()])
    );
    assert_eq!(app.flash_copied_paths, vec!["/root/b.txt".to_string()]);
    assert_eq!(app.last_key, "", "a consumed two-key sequence resets the buffer");
}

#[test]
fn cut_then_paste_moves_and_empties_the_clipboard() {
    let mut app = fresh(true);
    handle_key_event(&mut app, key('x'));
    assert_eq!(
        app.clipboard,
        ClipboardOperation::Cut(vec!["/root/a.txt".to_string()])
    );
    let a = handle_key_event(&mut app, key('p'));
    assert_eq!(a, Action::MoveItems(vec!["/root/a.txt".to_string()]));
    assert_eq!(app.clipboard, ClipboardOperation::Empty);
}

#[test]
fn copy_paste_keeps_the_clipboard_for_another_paste() {
    let mut app = fresh(true);
    handle_key_event(&mut app, key('m'));
    handle_key_event(&mut app, key('y'));
    assert_eq!(
        app.clipboard,
        ClipboardOperation::Copy(vec!["/root/a.txt".to_string()])
    );
    let a = handle_key_event(&mut app, key('p'));
    assert_eq!(a, Action::CopyItems(vec!["/root/a.txt".to_string()]));
    let b = handle_key_event(&mut app, key('p'));
    assert_eq!(b, Action::CopyItems(vec!["/root/a.txt".to_string()]));
}

#[test]
fn quick_jump_fires_on_the_two_key_sequence() {
    let mut app = fresh(true);
    let a = handle_key_event(&mut app, key('g'));
    assert_eq!(a, Action::Nothing);
    let b = handle_key_event(&mut app, key('h'));
    assert_eq!(b, Action::QuickJump("/home/me".to_string()));
    assert_eq!(app.last_key, "", "a successful match resets the buffer");
}

#[test]
fn history_back_key_pops_the_jump_stack() {
    let mut app = fresh(true);
    app.jump_to("/elsewhere".to_string());
    app.load_directory(vec![entry("x", false)]);
    let back = KeyEvent { code: KeyCode::Char('o'), ctrl: true, shift: false, alt: false };
    let a = handle_key_event(&mut app, back);
    assert_eq!(a, Action::Load("/root".to_string()));
    assert_eq!(app.current_dir, "/root");
}

#[test]
fn help_overlay_consumes_any_key() {
    let mut app = fresh(true);
    handle_key_event(&mut app, key('?'));
    assert_eq!(app.mode, Mode::Help);
    let a = handle_key_event(&mut app, key('x'));
    assert_eq!(a, Action::Nothing);
    assert_eq!(app.mode, Mode::Normal);
    assert_eq!(app.clipboard, ClipboardOperation::Empty, "the overlay does nothing else");
}

#[test]
fn create_mode_builds_paths_and_marks_directories() {
    let mut app = fresh(true);
    handle_key_event(&mut app, key('a'));
    assert_eq!(app.mode, Mode::Create);
    for c in "notes.md".chars() {
        handle_key_event(&mut app, key(c));
    }
    let a = handle_key_event(&mut app, special(KeyCode::Enter));
    assert_eq!(a, Action::CreateFile("/root/notes.md".to_string()));
    assert_eq!(app.mode, Mode::Normal);
    // a trailing slash asks for a directory instead
    handle_key_event(&mut app, key('a'));
    for c in "box/".chars() {
        handle_key_event(&mut app, key(c));
    }
    let b = handle_key_event(&mut app, special(KeyCode::Enter));
    assert_eq!(b, Action::CreateDir("/root/box/".to_string()));
}

#[test]
fn create_mode_backspace_edits_and_escape_cancels() {
    let mut app = fresh(true);
    handle_key_event(&mut app, key('a'));
    handle_key_event(&mut app, key('x'));
    handle_key_event(&mut app, key('y'));
    handle_key_event(&mut app, special(KeyCode::Backspace));
    assert_eq!(app.create_input, "x");
    handle_key_event(&mut app, special(KeyCode::Esc));
    assert_eq!(app.mode, Mode::Normal);
    assert_eq!(app.create_input, "");
}

#[test]
fn rename_mode_targets_the_cursor_row() {
    let mut app = fresh(true);
    handle_key_event(&mut app, key('j'));
    handle_key_event(&mut app, key('r'));
    assert_eq!(app.mode, Mode::Rename);
    for c in "new.txt".chars() {
        handle_key_event(&mut app, key(c));
    }
    let a = handle_key_event(&mut app, special(KeyCode::Enter));
    assert_eq!(
        a,
        Action::RenamePath { from: "/root/b.txt".to_string(), to: "/root/new.txt".to_string() }
    );
    assert_eq!(app.mode, Mode::Normal);
}

#[test]
fn visual_multi_extends_marks_as_the_cursor_moves() {
    let mut app = fresh(true);
    let shift_v = KeyEvent { code: KeyCode::Char('V'), ctrl: false, shift: true, alt: false };
    handle_key_event(&mut app, shift_v);
    assert_eq!(app.mode, Mode::VisualMulti);
    assert_eq!(app.selected_indices, vec![0]);
    handle_key_event(&mut app, key('j'));
    handle_key_event(&mut app, key('j'));
    assert_eq!(app.selected_indices, vec![0, 1, 2]);
    // m removes the current row from the selection
    handle_key_event(&mut app, key('m'));
    assert_eq!(app.selected_indices, vec![0, 1]);
    // enter keeps the marks
    handle_key_event(&mut app, special(KeyCode::Enter));
    assert_eq!(app.mode, Mode::Normal);
    assert_eq!(app.selected_indices, vec![0, 1]);
}

#[test]
fn visual_multi_escape_clears_marks_and_y_copies_them() {
    let mut app = fresh(true);
    let shift_v = KeyEvent { code: KeyCode::Char('V'), ctrl: false, shift: true, alt: false };
    handle_key_event(&mut app, shift_v);
    handle_key_event(&mut app, key('j'));
    handle_key_event(&mut app, special(KeyCode::Esc));
    assert_eq!(app.mode, Mode::Normal);
    assert!(app.selected_indices.is_empty());
    // the cursor stayed on row 1 after the cleared selection
    handle_key_event(&mut app, shift_v);
    handle_key_event(&mut app, key('j'));
    handle_key_event(&mut app, key('y'));
    assert_eq!(app.mode, Mode::Normal);
    assert!(app.selected_indices.is_empty());
    assert_eq!(
        app.clipboard,
        ClipboardOperation::Copy(vec!["/root/b.txt".to_string(), "/root/c.txt".to_string()])
    );
}

#[test]
fn sort_menu_picks_key_and_o_flips_direction() {
    let mut app = fresh(true);
    handle_key_event(&mut app, key('s'));
    assert_eq!(app.mode, Mode::SortMenu);
    handle_key_event(&mut app, key('s'));
    assert_eq!(app.mode, Mode::Normal);
    assert_eq!(app.sort_mode, SortMode::Size);
    assert!(app.sort_ascending);
    handle_key_event(&mut app, key('o'));
    assert!(!app.sort_ascending);
}

#[test]
fn search_keys_drive_the_query() {
    let mut app = fresh(true);
    handle_key_event(&mut app, key('/'));
    assert_eq!(app.mode, Mode::Search);
    handle_key_event(&mut app, key('b'));
    assert_eq!(app.search_query, "b");
    let c = app.cursor.unwrap();
    assert_eq!(app.files[c].name, "b.txt");
    handle_key_event(&mut app, special(KeyCode::Enter));
    assert_eq!(app.mode, Mode::Normal);
    assert!(!app.search_highlights.is_empty(), "enter keeps the highlights");
    // escape in normal mode clears leftover highlights
    handle_key_event(&mut app, special(KeyCode::Esc));
    assert!(app.search_highlights.is_empty());
}

#[test]
fn escape_drops_a_pending_cut() {
    let mut app = fresh(true);
    handle_key_event(&mut app, key('x'));
    assert!(matches!(app.clipboard, ClipboardOperation::Cut(_)));
    handle_key_event(&mut app, special(KeyCode::Esc));
    assert_eq!(app.clipboard, ClipboardOperation::Empty);
}

#[test]
fn entering_a_file_opens_it_instead() {
    let mut app = fresh(true);
    let a = handle_key_event(&mut app, key('l'));
    assert_eq!(a, Action::Open("/root/a.txt".to_string()));
    assert_eq!(app.current_dir, "/root");
}
