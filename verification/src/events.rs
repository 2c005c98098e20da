//! The mode controller: one key event enters, the current mode decides
//! what it means, the state mutates, and at most one filesystem action
//! comes back out for the caller to perform. Two-key sequences are
//! recognized by concatenating the previous key's canonical string with
//! the current one against the quick-jump table; configurable key
//! descriptors combine a modifier set and a character, parsed
//! case-insensitively.

use vstd::prelude::*;
use vstd::string::*;
use crate::app::{App, ClipboardOperation, Mode};
use crate::app::{marked_path_views, next_cursor_of, prev_cursor_of};
use crate::entry::views;
use crate::text::{ascii_lower_char, ascii_upper_char, drop_last_char, find_last_in};
use crate::text::{join_of, join_path, last_index_of, lemma_find_last_in, push_char, str_eq};
use crate::text::{to_ascii_lower, to_ascii_upper};

verus! {

/// The part of a key press the controller reads.
#[derive(Debug, Clone, Copy, PartialEq, Eq, Structural)]
pub enum KeyCode {
    Char(char),
    Up,
    Down,
    Left,
    Right,
    Enter,
    Esc,
    Backspace,
    Other,
}

/// A key press: its code and the exact modifier set held with it.
#[derive(Debug, Clone, Copy, PartialEq, Eq, Structural)]
pub struct KeyEvent {
    pub code: KeyCode,
    pub ctrl: bool,
    pub shift: bool,
    pub alt: bool,
}

/// What the caller must do after a key was handled. The controller never
/// touches the filesystem itself: it hands one action out, the caller
/// performs it, and after any action that changes a directory's content
/// or navigates (`Load`, `CopyItems`, `MoveItems`, `DeletePaths`,
/// `CreateFile`, `CreateDir`, `RenamePath`) the caller reads the current
/// directory and hands the entries to `App::load_directory`. `QuickJump`
/// asks the caller to test that the path is an existing directory and
/// then either call `App::jump_to` and load, or record an error message.
#[derive(Debug, Clone, PartialEq)]
pub enum Action {
    Nothing,
    Load(String),
    Open(String),
    CopyItems(Vec<String>),
    MoveItems(Vec<String>),
    DeletePaths(Vec<String>),
    CreateFile(String),
    CreateDir(String),
    RenamePath { from: String, to: String },
    QuickJump(String),
}

/// The canonical string of a key press: its character, uppercased under
/// shift; other keys have no canonical string.
pub open spec fn spec_format_key(key: KeyEvent) -> Seq<char> {
    match key.code {
        KeyCode::Char(c) => if key.shift {
            seq![ascii_upper_char(c)]
        } else {
            seq![c]
        },
        _ => Seq::empty(),
    }
}

/// Renders a key press as its canonical string, for two-key sequences.
pub fn format_key(key: &KeyEvent) -> (r: String)
    ensures
        r@ == spec_format_key(*key),
{
    match key.code {
        KeyCode::Char(c) => {
            let mut s = String::new();
            if key.shift {
                push_char(&mut s, to_ascii_upper(c));
            } else {
                push_char(&mut s, c);
            }
            proof {
                assert(s@ =~= spec_format_key(*key));
            }
            s
        },
        _ => String::new(),
    }
}

/// A binding string split at every '+'.
pub open spec fn split_plus(s: Seq<char>) -> Seq<Seq<char>>
    decreases s.len(),
    via split_plus_decreases
{
    let k = find_last_in(s, '+');
    if k == -1 {
        seq![s]
    } else {
        split_plus(s.subrange(0, k)) + seq![s.subrange(k + 1, s.len() as int)]
    }
}

#[via_fn]
proof fn split_plus_decreases(s: Seq<char>) {
    lemma_find_last_in(s, '+');
}

/// A character sequence folded to ASCII lowercase.
pub open spec fn ascii_lower_seq(s: Seq<char>) -> Seq<char> {
    s.map_values(|c: char| ascii_lower_char(c))
}

/// A parsed key descriptor: the declared modifier set and the bound
/// character, if the descriptor names one.
#[verifier::ext_equal]
pub ghost struct BindSpec {
    pub ctrl: bool,
    pub shift: bool,
    pub alt: bool,
    pub ch: Option<char>,
}

/// Folds the parts of a binding string, case-insensitively: modifier
/// names set their flag, a single character becomes the bound character
/// (the last one wins), anything else is ignored.
pub open spec fn classify_parts(parts: Seq<Seq<char>>) -> BindSpec
    decreases parts.len(),
{
    if parts.len() == 0 {
        BindSpec { ctrl: false, shift: false, alt: false, ch: Option::None }
    } else {
        let rest = classify_parts(parts.drop_last());
        let p = ascii_lower_seq(parts.last());
        if p == "ctrl"@ || p == "control"@ {
            BindSpec { ctrl: true, ..rest }
        } else if p == "shift"@ {
            BindSpec { shift: true, ..rest }
        } else if p == "alt"@ {
            BindSpec { alt: true, ..rest }
        } else if p.len() == 1 {
            BindSpec { ch: Option::Some(p[0]), ..rest }
        } else {
            rest
        }
    }
}

/// A pressed key matches a descriptor exactly when the descriptor names
/// a character, the key carries that character, and the key's modifier
/// set equals the declared one — no modifier may be held unless declared.
pub open spec fn spec_matches_keybinding(key: KeyEvent, binding: Seq<char>) -> bool {
    let b = classify_parts(split_plus(binding));
    match b.ch {
        Option::Some(ch) => match key.code {
            KeyCode::Char(kc) => kc == ch && key.ctrl == b.ctrl && key.shift == b.shift
                && key.alt == b.alt,
            _ => false,
        },
        Option::None => false,
    }
}

/// Splits a binding string at every '+'.
fn split_plus_exec(s: &str) -> (r: Vec<String>)
    ensures
        r.deep_view() == split_plus(s@),
    decreases s@.len(),
{
    proof {
        lemma_find_last_in(s@, '+');
    }
    let len = s.unicode_len();
    match last_index_of(s, '+') {
        None => {
            let mut r: Vec<String> = Vec::new();
            r.push(String::from_str(s));
            proof {
                assert(r.deep_view() =~= split_plus(s@));
            }
            r
        },
        Some(k) => {
            let head = s.substring_char(0, k);
            let tail_part = s.substring_char(k + 1, len);
            let mut r = split_plus_exec(head);
            let ghost r0 = r.deep_view();
            r.push(String::from_str(tail_part));
            proof {
                assert(r.deep_view() =~= r0 + seq![s@.subrange(k + 1, s@.len() as int)]);
            }
            r
        },
    }
}

/// The characters of a part, folded to ASCII lowercase.
fn lower_chars_of(s: &str) -> (r: Vec<char>)
    ensures
        r@ == ascii_lower_seq(s@),
{
    let len = s.unicode_len();
    let mut r: Vec<char> = Vec::new();
    let mut i: usize = 0;
    while i < len
        invariant
            i <= len,
            len == s@.len(),
            r@.len() == i,
            forall|j: int| 0 <= j < i ==> #[trigger] r@[j] == ascii_lower_char(s@[j]),
        decreases len - i,
    {
        r.push(to_ascii_lower(s.get_char(i)));
        i = i + 1;
    }
    proof {
        assert(r@ =~= ascii_lower_seq(s@));
    }
    r
}

/// Whether a lowered part equals a keyword.
fn part_is(part: &Vec<char>, lit: &str) -> (r: bool)
    ensures
        r == (part@ == lit@),
{
    let len = lit.unicode_len();
    if part.len() != len {
        return false;
    }
    let mut i: usize = 0;
    while i < len
        invariant
            i <= len,
            len == lit@.len(),
            len == part@.len(),
            forall|j: int| 0 <= j < i ==> part@[j] == lit@[j],
        decreases len - i,
    {
        if part[i] != lit.get_char(i) {
            return false;
        }
        i = i + 1;
    }
    proof {
        assert(part@ =~= lit@);
    }
    true
}

/// Whether a pressed key matches a configurable descriptor such as
/// `"ctrl+o"`: both the character and the exact modifier set must agree.
pub fn matches_keybinding(key: &KeyEvent, binding: &str) -> (r: bool)
    ensures
        r == spec_matches_keybinding(*key, binding@),
{
    let parts = split_plus_exec(binding);
    let ghost pd = split_plus(binding@);
    let mut ctrl = false;
    let mut shift = false;
    let mut alt = false;
    let mut ch: Option<char> = None;
    let mut i: usize = 0;
    proof {
        assert(pd.take(0) =~= Seq::<Seq<char>>::empty());
    }
    while i < parts.len()
        invariant
            i <= parts@.len(),
            parts.deep_view() == pd,
            pd.len() == parts@.len(),
            classify_parts(pd.take(i as int)) == (BindSpec { ctrl, shift, alt, ch }),
        decreases parts@.len() - i,
    {
        proof {
            assert(pd.take(i + 1).drop_last() =~= pd.take(i as int));
            assert(pd.take(i + 1).last() == pd[i as int]);
            assert(pd[i as int] == parts@[i as int]@);
        }
        let lowered = lower_chars_of(parts[i].as_str());
        if part_is(&lowered, "ctrl") || part_is(&lowered, "control") {
            ctrl = true;
        } else if part_is(&lowered, "shift") {
            shift = true;
        } else if part_is(&lowered, "alt") {
            alt = true;
        } else if lowered.len() == 1 {
            ch = Some(lowered[0]);
        }
        i = i + 1;
    }
    proof {
        assert(pd.take(parts@.len() as int) =~= pd);
    }
    match ch {
        Some(c) => match key.code {
            KeyCode::Char(kc) => kc == c && key.ctrl == ctrl && key.shift == shift && key.alt
                == alt,
            _ => false,
        },
        None => false,
    }
}

/// The first quick-jump target bound to a key sequence, if any.
pub open spec fn jump_lookup(table: Seq<(Seq<char>, Seq<char>)>, combo: Seq<char>) -> Option<
    Seq<char>,
>
    decreases table.len(),
{
    if table.len() == 0 {
        Option::None
    } else if table.first().0 == combo {
        Option::Some(table.first().1)
    } else {
        jump_lookup(table.drop_first(), combo)
    }
}

/// Looks a two-key sequence up in the quick-jump table.
fn lookup_quick_jump(table: &Vec<(String, String)>, combo: &String) -> (r: Option<String>)
    ensures
        match r {
            Option::Some(p) => jump_lookup(table.deep_view(), combo@) == Option::Some(p@),
            Option::None => jump_lookup(table.deep_view(), combo@) is None,
        },
{
    let ghost tv = table.deep_view();
    let mut i: usize = 0;
    proof {
        assert(tv.skip(0) =~= tv);
    }
    while i < table.len()
        invariant
            i <= table@.len(),
            tv == table.deep_view(),
            tv.len() == table@.len(),
            jump_lookup(tv, combo@) == jump_lookup(tv.skip(i as int), combo@),
        decreases table@.len() - i,
    {
        proof {
            assert(tv.skip(i as int).first() == tv[i as int]);
            assert(tv.skip(i as int).drop_first() =~= tv.skip(i + 1));
            assert(tv[i as int] == (table@[i as int].0@, table@[i as int].1@));
        }
        if str_eq(table[i].0.as_str(), combo.as_str()) {
            return Some(table[i].1.clone());
        }
        i = i + 1;
    }
    proof {
        assert(tv.skip(table@.len() as int) =~= Seq::<(Seq<char>, Seq<char>)>::empty());
    }
    None
}

/// The paths a copy, cut or delete acts on: the marked rows when any
/// exist, else the cursor row alone, else nothing.
pub open spec fn target_paths(app: App) -> Seq<Seq<char>> {
    if app.selected_indices@.len() > 0 {
        marked_path_views(app.selected_indices@, views(app.files@))
    } else {
        match app.cursor {
            Option::Some(i) => seq![views(app.files@)[i as int].path],
            Option::None => Seq::empty(),
        }
    }
}

/// Collects the paths a batch operation acts on.
fn collect_targets(app: &App) -> (r: Vec<String>)
    requires
        app.wf(),
    ensures
        r.deep_view() == target_paths(*app),
{
    if app.selected_indices.len() > 0 {
        app.marked_paths()
    } else {
        match app.cursor {
            Some(i) => {
                let mut r: Vec<String> = Vec::new();
                r.push(app.files[i].path.clone());
                proof {
                    assert(r.deep_view() =~= target_paths(*app));
                }
                r
            },
            None => {
                let r: Vec<String> = Vec::new();
                proof {
                    assert(r.deep_view() =~= target_paths(*app));
                }
                r
            },
        }
    }
}

/// Clones a list of paths.
fn clone_paths(v: &Vec<String>) -> (r: Vec<String>)
    ensures
        r@.len() == v@.len(),
        forall|i: int| 0 <= i < v@.len() ==> #[trigger] r@[i] == v@[i],
{
    let mut r: Vec<String> = Vec::new();
    let mut i: usize = 0;
    while i < v.len()
        invariant
            i <= v@.len(),
            r@.len() == i,
            forall|j: int| 0 <= j < i ==> #[trigger] r@[j] == v@[j],
        decreases v@.len() - i,
    {
        r.push(v[i].clone());
        i = i + 1;
    }
    r
}

/// Turns the internal clipboard into the batch the caller must perform
/// in the current directory: copied paths are copied (and stay on the
/// clipboard for another paste), cut paths are moved once and the
/// clipboard empties; an empty clipboard asks for nothing.
pub fn paste(app: &mut App) -> (r: Action)
    requires
        old(app).wf(),
    ensures
        final(app).wf(),
        *final(app) == (App { clipboard: final(app).clipboard, ..*old(app) }),
        match old(app).clipboard {
            ClipboardOperation::Empty => r == Action::Nothing && final(app).clipboard
                == ClipboardOperation::Empty,
            ClipboardOperation::Copy(paths) => {
                &&& r == Action::CopyItems(paths)
                &&& (final(app).clipboard matches ClipboardOperation::Copy(kept)
                    && kept.deep_view() == paths.deep_view())
            },
            ClipboardOperation::Cut(paths) => r == Action::MoveItems(paths) && final(app).clipboard
                == ClipboardOperation::Empty,
        },
{
    let mut cb = ClipboardOperation::Empty;
    core::mem::swap(&mut cb, &mut app.clipboard);
    match cb {
        ClipboardOperation::Empty => Action::Nothing,
        ClipboardOperation::Copy(paths) => {
            let kept = clone_paths(&paths);
            proof {
                assert(kept.deep_view() =~= paths.deep_view());
            }
            app.clipboard = ClipboardOperation::Copy(kept);
            Action::CopyItems(paths)
        },
        ClipboardOperation::Cut(paths) => Action::MoveItems(paths),
    }
}

/// Whether a key is a plain press of one character: that character with
/// no modifier held.
pub open spec fn plain_char(key: KeyEvent, c: char) -> bool {
    key.code == KeyCode::Char(c) && !key.ctrl && !key.shift && !key.alt
}

/// Help overlay: it consumes every key and returns to `Normal`,
/// performing nothing else.
fn handle_help_mode(app: &mut App, key: KeyEvent) -> (r: Action)
    requires
        old(app).wf(),
        old(app).mode == Mode::Help,
    ensures
        final(app).wf(),
        *final(app) == (App { mode: Mode::Normal, ..*old(app) }),
        r == Action::Nothing,
{
    let _ = key;
    app.mode = Mode::Normal;
    Action::Nothing
}

/// Pending delete: `y` confirms and hands the captured targets out for
/// deletion, clearing them and the marks; `n`, escape or enter cancels,
/// discarding the pending set without touching the marks; any other key
/// changes nothing. Later cursor movement never alters the pending
/// targets — they were captured when the delete key was pressed.
fn handle_delete_confirm_mode(app: &mut App, key: KeyEvent) -> (r: Action)
    requires
        old(app).wf(),
        old(app).mode == Mode::DeleteConfirm,
    ensures
        final(app).wf(),
        final(app).config == old(app).config,
        key.code == KeyCode::Char('y') || key.code == KeyCode::Char('Y') ==> {
            &&& r == Action::DeletePaths(old(app).delete_targets)
            &&& *final(app) == (App {
                mode: Mode::Normal,
                delete_targets: final(app).delete_targets,
                selected_indices: final(app).selected_indices,
                ..*old(app)
            })
            &&& final(app).delete_targets@.len() == 0
            &&& final(app).selected_indices@.len() == 0
        },
        key.code == KeyCode::Char('n') || key.code == KeyCode::Char('N') || key.code
            == KeyCode::Esc || key.code == KeyCode::Enter ==> {
            &&& r == Action::Nothing
            &&& *final(app) == (App {
                mode: Mode::Normal,
                delete_targets: final(app).delete_targets,
                ..*old(app)
            })
            &&& final(app).delete_targets@.len() == 0
            &&& final(app).selected_indices == old(app).selected_indices
        },
        !(key.code == KeyCode::Char('y') || key.code == KeyCode::Char('Y') || key.code
            == KeyCode::Char('n') || key.code == KeyCode::Char('N') || key.code == KeyCode::Esc
            || key.code == KeyCode::Enter) ==> *final(app) == *old(app) && r == Action::Nothing,
{
    match key.code {
        KeyCode::Char('y') | KeyCode::Char('Y') => {
            let mut targets: Vec<String> = Vec::new();
            core::mem::swap(&mut targets, &mut app.delete_targets);
            app.selected_indices = Vec::new();
            app.mode = Mode::Normal;
            Action::DeletePaths(targets)
        },
        KeyCode::Char('n') | KeyCode::Char('N') | KeyCode::Esc | KeyCode::Enter => {
            app.delete_targets = Vec::new();
            app.mode = Mode::Normal;
            Action::Nothing
        },
        _ => Action::Nothing,
    }
}

/// Sort menu: `n`, `s` and `m` pick the key and re-sort, escape cancels;
/// each of them returns to `Normal`.
fn handle_sort_menu(app: &mut App, key: KeyEvent) -> (r: Action)
    requires
        old(app).wf(),
        old(app).mode == Mode::SortMenu,
    ensures
        final(app).wf(),
        final(app).config == old(app).config,
        r == Action::Nothing,
        key.code == KeyCode::Esc ==> *final(app) == (App { mode: Mode::Normal, ..*old(app) }),
        key.code == KeyCode::Char('n') || key.code == KeyCode::Char('s') || key.code
            == KeyCode::Char('m') ==> {
            &&& final(app).mode == Mode::Normal
            &&& final(app).sort_mode == (if key.code == KeyCode::Char('n') {
                crate::config::SortMode::Name
            } else if key.code == KeyCode::Char('s') {
                crate::config::SortMode::Size
            } else {
                crate::config::SortMode::Modified
            })
            &&& views(final(app).files@) == crate::entry::spec_sort_listing(
                views(old(app).files@),
                final(app).sort_mode,
                old(app).sort_ascending,
            )
        },
        !(key.code == KeyCode::Esc || key.code == KeyCode::Char('n') || key.code == KeyCode::Char(
            's',
        ) || key.code == KeyCode::Char('m')) ==> *final(app) == *old(app),
{
    match key.code {
        KeyCode::Esc => {
            app.mode = Mode::Normal;
        },
        KeyCode::Char('n') => {
            app.sort_mode = crate::config::SortMode::Name;
            app.sort_files();
            app.mode = Mode::Normal;
        },
        KeyCode::Char('s') => {
            app.sort_mode = crate::config::SortMode::Size;
            app.sort_files();
            app.mode = Mode::Normal;
        },
        KeyCode::Char('m') => {
            app.sort_mode = crate::config::SortMode::Modified;
            app.sort_files();
            app.mode = Mode::Normal;
        },
        _ => {},
    }
    Action::Nothing
}

/// Search input: characters and backspace edit the query and re-run the
/// fuzzy search; enter keeps the highlights and returns to `Normal`;
/// escape cancels, clearing query and highlights and leaving the cursor
/// where it was.
fn handle_search_mode(app: &mut App, key: KeyEvent) -> (r: Action)
    requires
        old(app).wf(),
        old(app).mode == Mode::Search,
    ensures
        final(app).wf(),
        final(app).config == old(app).config,
        r == Action::Nothing,
        key.code == KeyCode::Esc ==> {
            &&& final(app).mode == Mode::Normal
            &&& final(app).search_query@.len() == 0
            &&& final(app).search_highlights@.len() == 0
            &&& final(app).cursor == old(app).cursor
        },
        key.code == KeyCode::Enter ==> *final(app) == (App { mode: Mode::Normal, ..*old(app) }),
        (key.code == KeyCode::Backspace || (key.code matches KeyCode::Char(_))) ==> {
            &&& final(app).mode == Mode::Search
            &&& final(app).search_query@ == (match key.code {
                KeyCode::Backspace => if old(app).search_query@.len() == 0 {
                    old(app).search_query@
                } else {
                    old(app).search_query@.drop_last()
                },
                KeyCode::Char(c) => old(app).search_query@.push(c),
                _ => old(app).search_query@,
            })
            &&& (final(app).search_query@.len() == 0 ==> final(app).search_highlights@.len() == 0
                && final(app).cursor == old(app).cursor)
            &&& (final(app).search_query@.len() > 0 ==> {
                let ms = crate::fuzzy::match_list(
                    views(final(app).files@),
                    final(app).search_query@,
                );
                &&& crate::fuzzy::match_views(final(app).search_match_positions@) == ms
                &&& (ms.len() == 0 ==> final(app).cursor == old(app).cursor)
                &&& (ms.len() > 0 ==> final(app).cursor == Option::Some(
                    ms[crate::fuzzy::best_pos(ms)].index as usize,
                ))
            })
        },
{
    match key.code {
        KeyCode::Esc => {
            app.mode = Mode::Normal;
            app.clear_search();
            Action::Nothing
        },
        KeyCode::Enter => {
            app.mode = Mode::Normal;
            Action::Nothing
        },
        KeyCode::Backspace => {
            app.search_query = drop_last_char(&app.search_query);
            crate::fuzzy::update_search(app);
            proof {
                if app.search_query@.len() > 0 {
                    crate::fuzzy::lemma_match_list_indices(views(app.files@), app.search_query@);
                    let ms = crate::fuzzy::match_list(views(app.files@), app.search_query@);
                    if ms.len() > 0 {
                        crate::fuzzy::lemma_best_pos(ms);
                    }
                }
            }
            Action::Nothing
        },
        KeyCode::Char(c) => {
            push_char(&mut app.search_query, c);
            crate::fuzzy::update_search(app);
            proof {
                if app.search_query@.len() > 0 {
                    crate::fuzzy::lemma_match_list_indices(views(app.files@), app.search_query@);
                    let ms = crate::fuzzy::match_list(views(app.files@), app.search_query@);
                    if ms.len() > 0 {
                        crate::fuzzy::lemma_best_pos(ms);
                    }
                }
            }
            Action::Nothing
        },
        _ => Action::Nothing,
    }
}

/// Multi-select: moving extends the marks with every row the cursor
/// lands on, `m` unmarks the current row, `y` and `x` take the marks to
/// the clipboard and leave the mode, enter keeps the marks, escape
/// clears them.
fn handle_visual_multi_mode(app: &mut App, key: KeyEvent) -> (r: Action)
    requires
        old(app).wf(),
        old(app).mode == Mode::VisualMulti,
    ensures
        final(app).wf(),
        final(app).config == old(app).config,
        r == Action::Nothing,
        key.code == KeyCode::Enter ==> *final(app) == (App { mode: Mode::Normal, ..*old(app) }),
        key.code == KeyCode::Esc ==> *final(app) == (App {
            mode: Mode::Normal,
            selected_indices: final(app).selected_indices,
            ..*old(app)
        }) && final(app).selected_indices@.len() == 0,
        key.code == KeyCode::Char('j') || key.code == KeyCode::Down ==> {
            &&& final(app).cursor == next_cursor_of(*old(app))
            &&& final(app).mode == Mode::VisualMulti
            &&& (match final(app).cursor {
                Option::Some(c) => final(app).selected_indices@ == (
                if old(app).selected_indices@.contains(c) {
                    old(app).selected_indices@
                } else {
                    old(app).selected_indices@.push(c)
                }),
                Option::None => final(app).selected_indices@ == old(app).selected_indices@,
            })
        },
        key.code == KeyCode::Char('k') || key.code == KeyCode::Up ==> {
            &&& final(app).cursor == prev_cursor_of(*old(app))
            &&& final(app).mode == Mode::VisualMulti
            &&& (match final(app).cursor {
                Option::Some(c) => final(app).selected_indices@ == (
                if old(app).selected_indices@.contains(c) {
                    old(app).selected_indices@
                } else {
                    old(app).selected_indices@.push(c)
                }),
                Option::None => final(app).selected_indices@ == old(app).selected_indices@,
            })
        },
        key.code == KeyCode::Char('y') ==> {
            &&& final(app).mode == Mode::Normal
            &&& final(app).selected_indices@.len() == 0
            &&& (old(app).selected_indices@.len() > 0 ==> (final(app).clipboard matches
                ClipboardOperation::Copy(p) && p.deep_view() == marked_path_views(
                old(app).selected_indices@,
                views(old(app).files@),
            )))
            &&& (old(app).selected_indices@.len() == 0 ==> final(app).clipboard == old(
                app,
            ).clipboard)
        },
        key.code == KeyCode::Char('x') ==> {
            &&& final(app).mode == Mode::Normal
            &&& final(app).selected_indices@.len() == 0
            &&& (old(app).selected_indices@.len() > 0 ==> (final(app).clipboard matches
                ClipboardOperation::Cut(p) && p.deep_view() == marked_path_views(
                old(app).selected_indices@,
                views(old(app).files@),
            )))
            &&& (old(app).selected_indices@.len() == 0 ==> final(app).clipboard == old(
                app,
            ).clipboard)
        },
{
    match key.code {
        KeyCode::Enter => {
            app.mode = Mode::Normal;
        },
        KeyCode::Esc => {
            app.mode = Mode::Normal;
            app.selected_indices = Vec::new();
        },
        KeyCode::Char('j') | KeyCode::Down => {
            app.next();
            app.mark_cursor();
        },
        KeyCode::Char('k') | KeyCode::Up => {
            app.previous();
            app.mark_cursor();
        },
        KeyCode::Char('m') => {
            app.unmark_cursor();
        },
        KeyCode::Char('y') => {
            if app.selected_indices.len() > 0 {
                let paths = app.marked_paths();
                app.flash_copied_paths = clone_paths(&paths);
                proof {
                    assert(app.flash_copied_paths.deep_view() =~= paths.deep_view());
                }
                app.clipboard = ClipboardOperation::Copy(paths);
            }
            app.mode = Mode::Normal;
            app.selected_indices = Vec::new();
        },
        KeyCode::Char('x') => {
            if app.selected_indices.len() > 0 {
                let paths = app.marked_paths();
                app.clipboard = ClipboardOperation::Cut(paths);
            }
            app.mode = Mode::Normal;
            app.selected_indices = Vec::new();
        },
        _ => {},
    }
    Action::Nothing
}

/// Create input: characters and backspace edit the name; enter creates
/// it under the current directory — a trailing '/' asks for a directory
/// instead of a file — and returns to `Normal`; escape cancels.
fn handle_create_mode(app: &mut App, key: KeyEvent) -> (r: Action)
    requires
        old(app).wf(),
        old(app).mode == Mode::Create,
    ensures
        final(app).wf(),
        final(app).config == old(app).config,
        key.code == KeyCode::Esc ==> *final(app) == (App {
            mode: Mode::Normal,
            create_input: final(app).create_input,
            ..*old(app)
        }) && final(app).create_input@.len() == 0 && r == Action::Nothing,
        key.code == KeyCode::Enter ==> {
            &&& final(app).mode == Mode::Normal
            &&& final(app).create_input@.len() == 0
            &&& (old(app).create_input@.len() == 0 ==> r == Action::Nothing)
            &&& (old(app).create_input@.len() > 0 ==> {
                let target = join_of(old(app).current_dir@, old(app).create_input@);
                if old(app).create_input@.last() == '/' {
                    r matches Action::CreateDir(p) && p@ == target
                } else {
                    r matches Action::CreateFile(p) && p@ == target
                }
            })
        },
        key.code == KeyCode::Backspace ==> r == Action::Nothing && *final(app) == (App {
            create_input: final(app).create_input,
            ..*old(app)
        }) && final(app).create_input@ == (if old(app).create_input@.len() == 0 {
            old(app).create_input@
        } else {
            old(app).create_input@.drop_last()
        }),
        key.code matches KeyCode::Char(c) ==> r == Action::Nothing && *final(app) == (App {
            create_input: final(app).create_input,
            ..*old(app)
        }) && final(app).create_input@ == old(app).create_input@.push(c),
{
    match key.code {
        KeyCode::Esc => {
            app.mode = Mode::Normal;
            app.create_input = String::new();
            Action::Nothing
        },
        KeyCode::Enter => {
            let len = app.create_input.as_str().unicode_len();
            let act: Action = if len > 0 {
                let path = join_path(app.current_dir.as_str(), app.create_input.as_str());
                if app.create_input.as_str().get_char(len - 1) == '/' {
                    Action::CreateDir(path)
                } else {
                    Action::CreateFile(path)
                }
            } else {
                Action::Nothing
            };
            app.mode = Mode::Normal;
            app.create_input = String::new();
            act
        },
        KeyCode::Backspace => {
            app.create_input = drop_last_char(&app.create_input);
            Action::Nothing
        },
        KeyCode::Char(c) => {
            push_char(&mut app.create_input, c);
            Action::Nothing
        },
        _ => Action::Nothing,
    }
}

/// Rename input: characters and backspace edit the new name; enter
/// renames the entry under the cursor to it, within the current
/// directory, and returns to `Normal`; escape cancels.
fn handle_rename_mode(app: &mut App, key: KeyEvent) -> (r: Action)
    requires
        old(app).wf(),
        old(app).mode == Mode::Rename,
    ensures
        final(app).wf(),
        final(app).config == old(app).config,
        key.code == KeyCode::Esc ==> *final(app) == (App {
            mode: Mode::Normal,
            rename_input: final(app).rename_input,
            ..*old(app)
        }) && final(app).rename_input@.len() == 0 && r == Action::Nothing,
        key.code == KeyCode::Enter ==> {
            &&& final(app).mode == Mode::Normal
            &&& final(app).rename_input@.len() == 0
            &&& (match old(app).cursor {
                Option::Some(i) => {
                    if old(app).rename_input@.len() > 0 {
                        r matches Action::RenamePath { from, to } && from@ == views(
                            old(app).files@,
                        )[i as int].path && to@ == join_of(
                            old(app).current_dir@,
                            old(app).rename_input@,
                        )
                    } else {
                        r == Action::Nothing
                    }
                },
                Option::None => r == Action::Nothing,
            })
        },
        key.code == KeyCode::Backspace ==> r == Action::Nothing && *final(app) == (App {
            rename_input: final(app).rename_input,
            ..*old(app)
        }) && final(app).rename_input@ == (if old(app).rename_input@.len() == 0 {
            old(app).rename_input@
        } else {
            old(app).rename_input@.drop_last()
        }),
        key.code matches KeyCode::Char(c) ==> r == Action::Nothing && *final(app) == (App {
            rename_input: final(app).rename_input,
            ..*old(app)
        }) && final(app).rename_input@ == old(app).rename_input@.push(c),
{
    match key.code {
        KeyCode::Esc => {
            app.mode = Mode::Normal;
            app.rename_input = String::new();
            Action::Nothing
        },
        KeyCode::Enter => {
            let len = app.rename_input.as_str().unicode_len();
            let act: Action = match app.cursor {
                Some(i) => {
                    if len > 0 {
                        let from = app.files[i].path.clone();
                        let to = join_path(app.current_dir.as_str(), app.rename_input.as_str());
                        Action::RenamePath { from, to }
                    } else {
                        Action::Nothing
                    }
                },
                None => Action::Nothing,
            };
            app.mode = Mode::Normal;
            app.rename_input = String::new();
            act
        },
        KeyCode::Backspace => {
            app.rename_input = drop_last_char(&app.rename_input);
            Action::Nothing
        },
        KeyCode::Char(c) => {
            push_char(&mut app.rename_input, c);
            Action::Nothing
        },
        _ => Action::Nothing,
    }
}

/// Normal mode. The history-back descriptor is tried first, then the
/// two-key quick-jump table, then the single-key bindings: navigation,
/// hidden toggle, marking, multi-select, copy/cut/paste, search, sort,
/// create, rename, delete and help. The last-key buffer resets after a
/// successful two-key match and after a `yy` copy, and otherwise becomes
/// the current key's canonical string.
fn handle_normal_mode(app: &mut App, key: KeyEvent, current_key: &String, two_key_combo: &String) -> (r:
    Action)
    requires
        old(app).wf(),
        old(app).mode == Mode::Normal,
    ensures
        final(app).wf(),
        final(app).config == old(app).config,
        ({
            let back = spec_matches_keybinding(key, old(app).config.keybindings.history_back@);
            let jump = jump_lookup(
                old(app).config.keybindings.quick_jumps.deep_view(),
                two_key_combo@,
            );
            &&& (!back && jump is Some ==> (r matches Action::QuickJump(p) && Option::Some(p@)
                == jump && final(app).last_key@.len() == 0))
            &&& (!back && jump is None ==> {
                &&& (plain_char(key, 'q') ==> final(app).should_quit)
                &&& ((plain_char(key, 'j') || key.code == KeyCode::Down) ==> final(app).cursor
                    == next_cursor_of(*old(app)))
                &&& ((plain_char(key, 'k') || key.code == KeyCode::Up) ==> final(app).cursor
                    == prev_cursor_of(*old(app)))
                &&& (key.code == KeyCode::Char('?') ==> final(app).mode == Mode::Help)
                &&& (plain_char(key, 'd') ==> {
                    let targets = target_paths(*old(app));
                    if targets.len() > 0 {
                        if old(app).config.behavior.delete_confirmation {
                            &&& final(app).mode == Mode::DeleteConfirm
                            &&& final(app).delete_targets.deep_view() == targets
                            &&& final(app).selected_indices == old(app).selected_indices
                            &&& r == Action::Nothing
                        } else {
                            &&& (r matches Action::DeletePaths(v) && v.deep_view() == targets)
                            &&& final(app).selected_indices@.len() == 0
                        }
                    } else {
                        r == Action::Nothing && final(app).mode == Mode::Normal
                    }
                })
            })
        }),
{
    // the configured history-back descriptor wins over everything
    let is_back = matches_keybinding(&key, app.config.keybindings.history_back.as_str());
    if is_back {
        let act: Action = match app.go_back_in_history() {
            Some(p) => {
                app.error_message = None;
                Action::Load(p)
            },
            None => Action::Nothing,
        };
        app.last_key = current_key.clone();
        return act;
    }
    // two-key quick jumps come before single-key bindings
    let jump = lookup_quick_jump(&app.config.keybindings.quick_jumps, two_key_combo);
    match jump {
        Some(path) => {
            app.last_key = String::new();
            return Action::QuickJump(path);
        },
        None => {},
    }
    let plain = !key.ctrl && !key.shift && !key.alt;
    let mut consumed_last = false;
    let mut act = Action::Nothing;
    match key.code {
        KeyCode::Char(c) => {
            if plain && c == 'q' {
                app.should_quit = true;
            } else if plain && c == 'j' {
                app.next();
                app.error_message = None;
            } else if plain && c == 'k' {
                app.previous();
                app.error_message = None;
            } else if plain && c == 'l' {
                act = enter_or_open(app);
            } else if plain && c == 'h' {
                act = match app.go_parent() {
                    Some(p) => Action::Load(p),
                    None => Action::Nothing,
                };
            } else if plain && c == '.' {
                app.toggle_hidden();
                act = Action::Load(app.current_dir.clone());
            } else if plain && c == 'm' {
                app.toggle_mark();
            } else if c == 'V' && key.shift && !key.ctrl && !key.alt {
                app.mode = Mode::VisualMulti;
                app.mark_cursor();
            } else if plain && c == 'y' {
                if str_eq(app.last_key.as_str(), "y") {
                    // yy: copy the cursor row when nothing is marked
                    if app.selected_indices.len() == 0 {
                        match app.cursor {
                            Some(i) => {
                                let p = app.files[i].path.clone();
                                let q = app.files[i].path.clone();
                                let mut flash: Vec<String> = Vec::new();
                                flash.push(p);
                                app.flash_copied_paths = flash;
                                let mut cb: Vec<String> = Vec::new();
                                cb.push(q);
                                app.clipboard = ClipboardOperation::Copy(cb);
                            },
                            None => {},
                        }
                    }
                    consumed_last = true;
                } else if app.selected_indices.len() > 0 {
                    // y: copy every marked row
                    let paths = app.marked_paths();
                    app.flash_copied_paths = clone_paths(&paths);
                    app.clipboard = ClipboardOperation::Copy(paths);
                    app.selected_indices = Vec::new();
                }
            } else if plain && c == 'x' {
                if app.selected_indices.len() > 0 {
                    let paths = app.marked_paths();
                    app.clipboard = ClipboardOperation::Cut(paths);
                    app.selected_indices = Vec::new();
                } else {
                    match app.cursor {
                        Some(i) => {
                            let mut cb: Vec<String> = Vec::new();
                            cb.push(app.files[i].path.clone());
                            app.clipboard = ClipboardOperation::Cut(cb);
                        },
                        None => {},
                    }
                }
            } else if plain && c == 'p' {
                act = paste(app);
            } else if plain && c == '/' {
                app.mode = Mode::Search;
                app.clear_search();
            } else if plain && c == 's' {
                app.mode = Mode::SortMenu;
            } else if plain && c == 'o' {
                app.sort_ascending = !app.sort_ascending;
                app.sort_files();
            } else if plain && c == 'a' {
                app.mode = Mode::Create;
                app.create_input = String::new();
            } else if plain && c == 'r' {
                match app.cursor {
                    Some(_) => {
                        app.mode = Mode::Rename;
                        app.rename_input = String::new();
                    },
                    None => {},
                }
            } else if plain && c == 'd' {
                let targets = collect_targets(app);
                if targets.len() > 0 {
                    if app.config.behavior.delete_confirmation {
                        app.delete_targets = targets;
                        app.mode = Mode::DeleteConfirm;
                    } else {
                        app.selected_indices = Vec::new();
                        act = Action::DeletePaths(targets);
                    }
                }
            } else if c == '?' {
                app.mode = Mode::Help;
            }
        },
        KeyCode::Down => {
            app.next();
            app.error_message = None;
        },
        KeyCode::Up => {
            app.previous();
            app.error_message = None;
        },
        KeyCode::Right => {
            act = enter_or_open(app);
        },
        KeyCode::Left => {
            act = match app.go_parent() {
                Some(p) => Action::Load(p),
                None => Action::Nothing,
            };
        },
        KeyCode::Esc => {
            let is_cut = match &app.clipboard {
                ClipboardOperation::Cut(_) => true,
                _ => false,
            };
            if is_cut {
                app.clipboard = ClipboardOperation::Empty;
            }
            if app.search_highlights.len() > 0 {
                app.clear_search();
            }
        },
        _ => {},
    }
    if consumed_last {
        app.last_key = String::new();
    } else {
        app.last_key = current_key.clone();
    }
    act
}

/// Right or `l` on a row: a directory is entered (and the caller loads
/// it); anything else is handed to the platform's default opener.
fn enter_or_open(app: &mut App) -> (r: Action)
    requires
        old(app).wf(),
    ensures
        final(app).wf(),
        final(app).config == old(app).config,
        final(app).mode == old(app).mode,
        final(app).should_quit == old(app).should_quit,
        final(app).last_key == old(app).last_key,
{
    match app.enter_directory() {
        Some(p) => Action::Load(p),
        None => match app.cursor {
            Some(i) => Action::Open(app.files[i].path.clone()),
            None => Action::Nothing,
        },
    }
}

/// Feeds one key press to the controller. The current mode decides what
/// the key means; the returned action is what the caller must perform.
/// The last-key buffer becomes the key's canonical string, except where
/// normal mode consumed it for a two-key sequence.
pub fn handle_key_event(app: &mut App, key: KeyEvent) -> (r: Action)
    requires
        old(app).wf(),
    ensures
        final(app).wf(),
        final(app).config == old(app).config,
        old(app).mode == Mode::Help ==> *final(app) == (App {
            mode: Mode::Normal,
            last_key: final(app).last_key,
            ..*old(app)
        }) && r == Action::Nothing && final(app).last_key@ == spec_format_key(key),
        old(app).mode == Mode::DeleteConfirm ==> {
            &&& (key.code == KeyCode::Char('y') || key.code == KeyCode::Char('Y') ==> {
                &&& r == Action::DeletePaths(old(app).delete_targets)
                &&& final(app).mode == Mode::Normal
                &&& final(app).delete_targets@.len() == 0
                &&& final(app).selected_indices@.len() == 0
            })
            &&& (key.code == KeyCode::Char('n') || key.code == KeyCode::Char('N') || key.code
                == KeyCode::Esc || key.code == KeyCode::Enter ==> {
                &&& r == Action::Nothing
                &&& final(app).mode == Mode::Normal
                &&& final(app).delete_targets@.len() == 0
                &&& final(app).selected_indices == old(app).selected_indices
            })
        },
        old(app).mode == Mode::Normal ==> {
            let back = spec_matches_keybinding(key, old(app).config.keybindings.history_back@);
            let jump = jump_lookup(
                old(app).config.keybindings.quick_jumps.deep_view(),
                old(app).last_key@ + spec_format_key(key),
            );
            !back && jump is None ==> {
                &&& (plain_char(key, 'q') ==> final(app).should_quit)
                &&& ((plain_char(key, 'j') || key.code == KeyCode::Down) ==> final(app).cursor
                    == next_cursor_of(*old(app)))
                &&& ((plain_char(key, 'k') || key.code == KeyCode::Up) ==> final(app).cursor
                    == prev_cursor_of(*old(app)))
                &&& (key.code == KeyCode::Char('?') ==> final(app).mode == Mode::Help)
                &&& (plain_char(key, 'd') ==> {
                    let targets = target_paths(*old(app));
                    if targets.len() > 0 {
                        if old(app).config.behavior.delete_confirmation {
                            &&& final(app).mode == Mode::DeleteConfirm
                            &&& final(app).delete_targets.deep_view() == targets
                            &&& final(app).selected_indices == old(app).selected_indices
                            &&& r == Action::Nothing
                        } else {
                            &&& (r matches Action::DeletePaths(v) && v.deep_view() == targets)
                            &&& final(app).selected_indices@.len() == 0
                        }
                    } else {
                        r == Action::Nothing && final(app).mode == Mode::Normal
                    }
                })
            }
        },
{
    let current_key = format_key(&key);
    let two_key_combo = app.last_key.clone().concat(current_key.as_str());
    match app.mode {
        Mode::Normal => handle_normal_mode(app, key, &current_key, &two_key_combo),
        Mode::VisualMulti => {
            let a = handle_visual_multi_mode(app, key);
            app.last_key = current_key;
            a
        },
        Mode::Search => {
            let a = handle_search_mode(app, key);
            app.last_key = current_key;
            a
        },
        Mode::SortMenu => {
            let a = handle_sort_menu(app, key);
            app.last_key = current_key;
            a
        },
        Mode::Create => {
            let a = handle_create_mode(app, key);
            app.last_key = current_key;
            a
        },
        Mode::Rename => {
            let a = handle_rename_mode(app, key);
            app.last_key = current_key;
            a
        },
        Mode::Help => {
            let a = handle_help_mode(app, key);
            app.last_key = current_key;
            a
        },
        Mode::DeleteConfirm => {
            let a = handle_delete_confirm_mode(app, key);
            app.last_key = current_key;
            a
        },
    }
}

} // verus!
