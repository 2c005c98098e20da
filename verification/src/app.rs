//! The browser state and its operations: the single long-lived state
//! bundle that every handler mutates. It owns the listing, cursor, marks,
//! clipboard, the two navigation stacks, the search annotations and the
//! directory-size cache. Filesystem reads and writes happen outside; a
//! reload hands the freshly read entries to `load_directory`, which
//! installs them, re-sorts, invalidates positional marks and resolves the
//! pending cursor policy.

use vstd::prelude::*;
use vstd::string::*;
use crate::config::{Config, SortMode};
use crate::entry::{EntryV, FileEntry, views, spec_sort_listing, sort_listing};
use crate::fuzzy::SearchMatch;
use crate::text::{join_of, join_path, parent_of};

verus! {

/// The internal clipboard: nothing, paths to copy, or paths to move.
#[derive(Debug, Clone, PartialEq)]
pub enum ClipboardOperation {
    Empty,
    Copy(Vec<String>),
    Cut(Vec<String>),
}

/// The input mode: exactly one is active and fully determines how a key
/// event is interpreted. `Normal` is the initial and the rest state.
#[derive(Debug, Clone, Copy, PartialEq, Eq, Structural)]
pub enum Mode {
    Normal,
    VisualMulti,
    Search,
    SortMenu,
    Create,
    Rename,
    Help,
    DeleteConfirm,
}

/// One frame of navigation history: where we were, and which row the
/// cursor sat on.
#[derive(Debug, Clone)]
pub struct NavigationHistory {
    pub path: String,
    pub selected_index: usize,
}

/// Where the cursor should land once the next listing is installed.
#[derive(Debug, Clone)]
pub enum PendingCursor {
    /// Stay where it was, clamped to the new length.
    Keep,
    /// The first row.
    Top,
    /// A remembered row, clamped to the new length.
    Hint(usize),
    /// The row whose path matches, else the hint clamped.
    PathMatch { path: String, hint: usize },
}

/// The mathematical value of a cursor policy.
#[verifier::ext_equal]
pub ghost enum PendingV {
    Keep,
    Top,
    Hint(int),
    PathMatch { path: Seq<char>, hint: int },
}

impl View for PendingCursor {
    type V = PendingV;

    open spec fn view(&self) -> PendingV {
        match self {
            PendingCursor::Keep => PendingV::Keep,
            PendingCursor::Top => PendingV::Top,
            PendingCursor::Hint(h) => PendingV::Hint(*h as int),
            PendingCursor::PathMatch { path, hint } => PendingV::PathMatch {
                path: path@,
                hint: *hint as int,
            },
        }
    }
}

/// One directory's cached recursive size: absent while the background
/// computation is still running.
#[derive(Debug, Clone)]
pub struct DirSize {
    pub path: String,
    pub size: Option<u64>,
}

/// The views of the size cache.
pub open spec fn sizes_views(s: Seq<DirSize>) -> Seq<(Seq<char>, Option<u64>)> {
    s.map_values(|d: DirSize| (d.path@, d.size))
}

/// The browser state.
pub struct App {
    pub current_dir: String,
    pub files: Vec<FileEntry>,
    pub cursor: Option<usize>,
    pub clipboard: ClipboardOperation,
    pub mode: Mode,
    pub show_hidden: bool,
    pub sort_mode: SortMode,
    pub sort_ascending: bool,
    pub search_query: String,
    pub create_input: String,
    pub rename_input: String,
    pub filtered_indices: Vec<usize>,
    pub selected_indices: Vec<usize>,
    pub should_quit: bool,
    pub config: Config,
    pub last_key: String,
    pub nav_history: Vec<NavigationHistory>,
    pub global_history: Vec<NavigationHistory>,
    pub flash_copied_paths: Vec<String>,
    pub delete_targets: Vec<String>,
    pub search_highlights: Vec<usize>,
    pub search_match_positions: Vec<SearchMatch>,
    pub error_message: Option<String>,
    pub dir_sizes: Vec<DirSize>,
    pub pending_cursor: PendingCursor,
}

impl App {
    /// The state invariant: the cursor is a valid row exactly when the
    /// listing is non-empty; the visible indices are the identity over
    /// the full listing; marks are distinct valid rows; the highlight
    /// set is strictly ascending, within bounds, aligned with the match
    /// records, and empty whenever the query is; a pending delete holds
    /// at least one target.
    pub open spec fn wf(self) -> bool {
        &&& match self.cursor {
            Option::Some(i) => self.files@.len() > 0 && (i as int) < self.files@.len(),
            Option::None => self.files@.len() == 0,
        }
        &&& self.filtered_indices@.len() == self.files@.len()
        &&& forall|i: int|
            0 <= i < self.filtered_indices@.len() ==> (#[trigger] self.filtered_indices@[i]) as int
                == i
        &&& forall|i: int|
            0 <= i < self.selected_indices@.len() ==> ((#[trigger] self.selected_indices@[i]) as int)
                < self.files@.len()
        &&& self.selected_indices@.no_duplicates()
        &&& self.search_highlights@.len() == self.search_match_positions@.len()
        &&& forall|i: int|
            0 <= i < self.search_highlights@.len() ==> ((#[trigger] self.search_highlights@[i]) as int)
                < self.files@.len()
        &&& forall|i: int|
            0 <= i < self.search_match_positions@.len() ==> (
            #[trigger] self.search_match_positions@[i]@.index) == self.search_highlights@[i] as int
        &&& forall|i: int, j: int|
            0 <= i < j < self.search_highlights@.len() ==> #[trigger] self.search_highlights@[i]
                < #[trigger] self.search_highlights@[j]
        &&& (self.search_query@.len() == 0 ==> self.search_highlights@.len() == 0)
        &&& (self.mode == Mode::DeleteConfirm ==> self.delete_targets@.len() > 0)
    }

    /// A fresh browser over `current_dir`, before the first load: an
    /// empty listing, `Normal` mode, an empty clipboard and histories,
    /// settings taken from the configuration, and the cursor policy set
    /// to land on the first row.
    pub fn new(config: Config, current_dir: String) -> (r: App)
        ensures
            r.wf(),
            r.current_dir == current_dir,
            r.files@.len() == 0,
            r.cursor is None,
            r.clipboard == ClipboardOperation::Empty,
            r.mode == Mode::Normal,
            r.show_hidden == config.behavior.show_hidden,
            r.sort_mode == config.behavior.default_sort,
            r.sort_ascending == true,
            r.search_query@.len() == 0,
            r.create_input@.len() == 0,
            r.rename_input@.len() == 0,
            r.selected_indices@.len() == 0,
            r.should_quit == false,
            r.config == config,
            r.last_key@.len() == 0,
            r.nav_history@.len() == 0,
            r.global_history@.len() == 0,
            r.flash_copied_paths@.len() == 0,
            r.delete_targets@.len() == 0,
            r.error_message is None,
            r.dir_sizes@.len() == 0,
            r.pending_cursor@ == PendingV::Top,
    {
        let show_hidden = config.behavior.show_hidden;
        let sort_mode = config.behavior.default_sort;
        App {
            current_dir,
            files: Vec::new(),
            cursor: None,
            clipboard: ClipboardOperation::Empty,
            mode: Mode::Normal,
            show_hidden,
            sort_mode,
            sort_ascending: true,
            search_query: String::new(),
            create_input: String::new(),
            rename_input: String::new(),
            filtered_indices: Vec::new(),
            selected_indices: Vec::new(),
            should_quit: false,
            config,
            last_key: String::new(),
            nav_history: Vec::new(),
            global_history: Vec::new(),
            flash_copied_paths: Vec::new(),
            delete_targets: Vec::new(),
            search_highlights: Vec::new(),
            search_match_positions: Vec::new(),
            error_message: None,
            dir_sizes: Vec::new(),
            pending_cursor: PendingCursor::Top,
        }
    }

    /// Rebuilds the visible-index list as the identity over the full
    /// listing: searching annotates rather than filters, so every row
    /// stays visible.
    pub fn update_filtered_indices(&mut self)
        ensures
            *final(self) == (App {
                filtered_indices: final(self).filtered_indices,
                ..*old(self)
            }),
            final(self).filtered_indices@.len() == final(self).files@.len(),
            forall|i: int|
                0 <= i < final(self).filtered_indices@.len() ==> (
                #[trigger] final(self).filtered_indices@[i]) as int == i,
    {
        let n = self.files.len();
        let mut v: Vec<usize> = Vec::new();
        let mut i: usize = 0;
        while i < n
            invariant
                i <= n,
                v@.len() == i,
                forall|j: int| 0 <= j < i ==> (#[trigger] v@[j]) as int == j,
            decreases n - i,
        {
            v.push(i);
            i = i + 1;
        }
        self.filtered_indices = v;
    }

    /// The visible rows, in order. The visible listing is the full
    /// listing.
    pub fn get_filtered_files(&self) -> (r: Vec<&FileEntry>)
        requires
            self.wf(),
        ensures
            r@.len() == self.files@.len(),
            forall|i: int| 0 <= i < r@.len() ==> #[trigger] r@[i]@ == self.files@[i]@,
    {
        let mut r: Vec<&FileEntry> = Vec::new();
        let mut i: usize = 0;
        while i < self.files.len()
            invariant
                i <= self.files@.len(),
                r@.len() == i,
                forall|j: int| 0 <= j < i ==> #[trigger] r@[j]@ == self.files@[j]@,
            decreases self.files@.len() - i,
        {
            r.push(&self.files[i]);
            i = i + 1;
        }
        r
    }

    /// Moves the cursor one row down, stopping at the last row. On an
    /// empty listing nothing changes.
    pub fn next(&mut self)
        requires
            old(self).wf(),
        ensures
            final(self).wf(),
            *final(self) == (App { cursor: final(self).cursor, ..*old(self) }),
            final(self).cursor == next_cursor_of(*old(self)),
    {
        let count = self.filtered_indices.len();
        if count == 0 {
            return ;
        }
        let i: usize = match self.cursor {
            Some(i) => if i >= count - 1 {
                count - 1
            } else {
                i + 1
            },
            None => 0,
        };
        self.cursor = Some(i);
    }

    /// Moves the cursor one row up, stopping at the first row. On an
    /// empty listing nothing changes.
    pub fn previous(&mut self)
        requires
            old(self).wf(),
        ensures
            final(self).wf(),
            *final(self) == (App { cursor: final(self).cursor, ..*old(self) }),
            final(self).cursor == prev_cursor_of(*old(self)),
    {
        let count = self.filtered_indices.len();
        if count == 0 {
            return ;
        }
        let i: usize = match self.cursor {
            Some(i) => if i == 0 {
                0
            } else {
                i - 1
            },
            None => 0,
        };
        self.cursor = Some(i);
    }

    /// The path under the cursor, if any row is selected.
    pub fn get_selected_path(&self) -> (r: Option<String>)
        requires
            self.wf(),
        ensures
            match r {
                Option::Some(p) => self.cursor matches Option::Some(i) && p@ == self.files@[
                    i as int
                ]@.path,
                Option::None => self.cursor is None,
            },
    {
        match self.cursor {
            Some(i) => Some(self.files[i].path.clone()),
            None => None,
        }
    }

    /// Drops the query and every search annotation. The cursor stays.
    pub fn clear_search(&mut self)
        ensures
            *final(self) == (App {
                search_query: final(self).search_query,
                search_highlights: final(self).search_highlights,
                search_match_positions: final(self).search_match_positions,
                ..*old(self)
            }),
            final(self).search_query@.len() == 0,
            final(self).search_highlights@.len() == 0,
            final(self).search_match_positions@.len() == 0,
    {
        self.search_query = String::new();
        self.search_highlights = Vec::new();
        self.search_match_positions = Vec::new();
    }
}

/// Whether an entry stays visible under the hidden-file switch.
pub open spec fn keep_pred(show_hidden: bool) -> spec_fn(EntryV) -> bool {
    |e: EntryV| show_hidden || !e.is_hidden
}

/// An entry with its absolute path rebuilt under `dir`.
pub open spec fn with_path(dir: Seq<char>, e: EntryV) -> EntryV {
    EntryV { path: join_of(dir, e.name), ..e }
}

/// The raw entries of a directory read, filtered by the hidden switch,
/// each with its absolute path under `dir`.
pub open spec fn spec_prepare(raw: Seq<EntryV>, dir: Seq<char>, show_hidden: bool) -> Seq<EntryV> {
    raw.filter(keep_pred(show_hidden)).map_values(|e: EntryV| with_path(dir, e))
}

/// The listing a reload installs: prepared entries, sorted with
/// directories first under the active key and direction.
pub open spec fn spec_listing(
    raw: Seq<EntryV>,
    dir: Seq<char>,
    show_hidden: bool,
    key: SortMode,
    asc: bool,
) -> Seq<EntryV> {
    spec_sort_listing(spec_prepare(raw, dir, show_hidden), key, asc)
}

/// The first index at or after `i` whose entry has the given path.
pub open spec fn find_path_from(listing: Seq<EntryV>, path: Seq<char>, i: int) -> Option<int>
    decreases listing.len() - i,
{
    if i < 0 || i >= listing.len() {
        Option::None
    } else if listing[i].path == path {
        Option::Some(i)
    } else {
        find_path_from(listing, path, i + 1)
    }
}

/// A found path index lies within the listing and names the path.
pub proof fn lemma_find_path_bounds(listing: Seq<EntryV>, path: Seq<char>, i: int)
    ensures
        match find_path_from(listing, path, i) {
            Option::Some(j) => i <= j < listing.len() && listing[j].path == path,
            Option::None => true,
        },
    decreases listing.len() - i,
{
    if 0 <= i < listing.len() && listing[i].path != path {
        lemma_find_path_bounds(listing, path, i + 1);
    }
}

/// An index clamped to a non-empty length.
pub open spec fn clampi(v: int, len: int) -> int {
    if v < len {
        v
    } else {
        len - 1
    }
}

/// Where the cursor lands when a listing is installed under a pending
/// policy: nowhere on an empty listing; otherwise the policy's row,
/// clamped, with a path match falling back to its clamped hint.
pub open spec fn resolve_cursor(p: PendingV, old_cursor: Option<usize>, listing: Seq<EntryV>) -> Option<int> {
    if listing.len() == 0 {
        Option::None
    } else {
        Option::Some(
            match p {
                PendingV::Keep => clampi(
                    match old_cursor {
                        Option::Some(c) => c as int,
                        Option::None => 0,
                    },
                    listing.len() as int,
                ),
                PendingV::Top => 0,
                PendingV::Hint(h) => clampi(h, listing.len() as int),
                PendingV::PathMatch { path, hint } => match find_path_from(listing, path, 0) {
                    Option::Some(i) => i,
                    Option::None => clampi(hint, listing.len() as int),
                },
            },
        )
    }
}

/// The cursor after one step down: the next row, stopping at the last;
/// an empty listing leaves the cursor untouched.
pub open spec fn next_cursor_of(app: App) -> Option<usize> {
    if app.files@.len() == 0 {
        app.cursor
    } else {
        Option::Some(
            match app.cursor {
                Option::Some(i) => if i + 1 < app.files@.len() {
                    (i + 1) as usize
                } else {
                    (app.files@.len() - 1) as usize
                },
                Option::None => 0usize,
            },
        )
    }
}

/// The cursor after one step up: the previous row, stopping at the first;
/// an empty listing leaves the cursor untouched.
pub open spec fn prev_cursor_of(app: App) -> Option<usize> {
    if app.files@.len() == 0 {
        app.cursor
    } else {
        Option::Some(
            match app.cursor {
                Option::Some(i) => if i > 0 {
                    (i - 1) as usize
                } else {
                    0usize
                },
                Option::None => 0usize,
            },
        )
    }
}

/// The paths of the marked rows, in mark order.
pub open spec fn marked_path_views(sel: Seq<usize>, listing: Seq<EntryV>) -> Seq<Seq<char>> {
    sel.map_values(|u: usize| listing[u as int].path)
}

/// The size cache a fresh listing starts with: every directory pending.
pub open spec fn init_sizes(listing: Seq<EntryV>) -> Seq<(Seq<char>, Option<u64>)> {
    listing.filter(crate::entry::is_dir_pred()).map_values(|e: EntryV| (e.path, Option::<u64>::None))
}

impl App {
    /// The first row of `files` whose path is `path`, if any.
    fn find_path_index(files: &Vec<FileEntry>, path: &String) -> (r: Option<usize>)
        ensures
            match r {
                Option::Some(i) => find_path_from(views(files@), path@, 0) == Option::Some(i as int),
                Option::None => find_path_from(views(files@), path@, 0) is None,
            },
    {
        let ghost listing = views(files@);
        let mut i: usize = 0;
        while i < files.len()
            invariant
                i <= files@.len(),
                listing == views(files@),
                listing.len() == files@.len(),
                find_path_from(listing, path@, 0) == find_path_from(listing, path@, i as int),
            decreases files@.len() - i,
        {
            proof {
                assert(listing[i as int] == files@[i as int]@);
            }
            if files[i].path.eq(path) {
                return Some(i);
            }
            i = i + 1;
        }
        None
    }

    /// Installs a freshly read directory listing: drops hidden entries
    /// unless they are shown, rebuilds each path under the current
    /// directory, sorts with directories first, resets the visible
    /// indices, invalidates all positional marks, restarts the size
    /// cache with every directory pending, resolves the pending cursor
    /// policy, and recomputes the search annotations for the current
    /// query.
    pub fn load_directory(&mut self, raw: Vec<FileEntry>)
        requires
            old(self).wf(),
        ensures
            final(self).wf(),
            *final(self) == (App {
                files: final(self).files,
                cursor: final(self).cursor,
                filtered_indices: final(self).filtered_indices,
                selected_indices: final(self).selected_indices,
                dir_sizes: final(self).dir_sizes,
                pending_cursor: final(self).pending_cursor,
                search_highlights: final(self).search_highlights,
                search_match_positions: final(self).search_match_positions,
                ..*old(self)
            }),
            views(final(self).files@) == spec_listing(
                views(raw@),
                old(self).current_dir@,
                old(self).show_hidden,
                old(self).sort_mode,
                old(self).sort_ascending,
            ),
            final(self).selected_indices@.len() == 0,
            match resolve_cursor(
                old(self).pending_cursor@,
                old(self).cursor,
                views(final(self).files@),
            ) {
                Option::Some(i) => final(self).cursor == Option::Some(i as usize),
                Option::None => final(self).cursor is None,
            },
            final(self).pending_cursor@ == PendingV::Keep,
            sizes_views(final(self).dir_sizes@) == init_sizes(views(final(self).files@)),
            final(self).search_query@.len() > 0 ==> crate::fuzzy::match_views(
                final(self).search_match_positions@,
            ) == crate::fuzzy::match_list(views(final(self).files@), final(self).search_query@),
    {
        let ghost dir = self.current_dir@;
        let ghost rawv = views(raw@);
        let ghost sh = self.show_hidden;
        // prepare: filter hidden, rebuild paths
        let mut raw = raw;
        let mut kept: Vec<FileEntry> = Vec::new();
        let ghost k: int = 0;
        proof {
            assert(rawv.take(0).filter(keep_pred(sh)) =~= Seq::<EntryV>::empty()) by {
                reveal(Seq::filter);
            }
            assert(views(kept@) =~= spec_prepare(rawv.take(0), dir, sh));
        }
        while raw.len() > 0
            invariant
                dir == self.current_dir@,
                sh == self.show_hidden,
                0 <= k <= rawv.len(),
                views(raw@) =~= rawv.skip(k),
                views(kept@) == spec_prepare(rawv.take(k), dir, sh),
            decreases raw@.len(),
        {
            let ghost raw0 = raw@;
            let ghost kept0 = kept@;
            let e = raw.remove(0);
            proof {
                assert(views(raw0)[0] == e@);
                assert(views(raw@) =~= views(raw0).drop_first());
                assert(views(raw@) =~= rawv.skip(k + 1));
                assert(e@ == rawv[k]);
                assert(rawv.take(k + 1) =~= rawv.take(k).push(rawv[k]));
                crate::entry::lemma_filter_push(rawv.take(k), rawv[k], keep_pred(sh));
            }
            if self.show_hidden || !e.is_hidden {
                let p = join_path(self.current_dir.as_str(), e.name.as_str());
                let e2 = FileEntry { path: p, ..e };
                proof {
                    assert(e2@ == with_path(dir, e@));
                }
                kept.push(e2);
                proof {
                    assert(views(kept@) =~= views(kept0).push(with_path(dir, rawv[k]))) by {
                        assert(forall|t: int|
                            0 <= t < kept@.len() ==> views(kept@)[t] == #[trigger] kept@[t]@);
                    }
                    assert(views(kept@) =~= spec_prepare(rawv.take(k + 1), dir, sh));
                }
            } else {
                proof {
                    assert(views(kept@) =~= spec_prepare(rawv.take(k + 1), dir, sh));
                }
            }
            proof {
                k = k + 1;
            }
        }
        proof {
            assert(rawv.take(k) =~= rawv);
        }
        // sort and install
        let sorted = sort_listing(kept, self.sort_mode, self.sort_ascending);
        self.files = sorted;
        self.update_filtered_indices();
        // positional marks do not survive a reload
        self.selected_indices = Vec::new();
        // restart the size cache: every directory pending
        let mut sizes: Vec<DirSize> = Vec::new();
        let ghost listing = views(self.files@);
        let mut i: usize = 0;
        proof {
            assert(listing.take(0).filter(crate::entry::is_dir_pred()) =~= Seq::<EntryV>::empty())
                by {
                reveal(Seq::filter);
            }
            assert(sizes_views(sizes@) =~= init_sizes(listing.take(0)));
        }
        while i < self.files.len()
            invariant
                i <= self.files@.len(),
                listing == views(self.files@),
                listing.len() == self.files@.len(),
                sizes_views(sizes@) == init_sizes(listing.take(i as int)),
            decreases self.files@.len() - i,
        {
            let ghost sizes0 = sizes@;
            proof {
                assert(listing.take(i + 1) =~= listing.take(i as int).push(listing[i as int]));
                assert(listing[i as int] == self.files@[i as int]@);
                crate::entry::lemma_filter_push(
                    listing.take(i as int),
                    listing[i as int],
                    crate::entry::is_dir_pred(),
                );
            }
            if self.files[i].is_dir {
                sizes.push(DirSize { path: self.files[i].path.clone(), size: None });
                proof {
                    assert(sizes_views(sizes@) =~= sizes_views(sizes0).push(
                        (listing[i as int].path, Option::<u64>::None),
                    )) by {
                        assert(forall|t: int|
                            0 <= t < sizes@.len() ==> sizes_views(sizes@)[t] == (
                            #[trigger] sizes@[t].path@,
                            sizes@[t].size,
                            ));
                    }
                    assert(sizes_views(sizes@) =~= init_sizes(listing.take(i + 1)));
                }
            } else {
                proof {
                    assert(sizes_views(sizes@) =~= init_sizes(listing.take(i + 1)));
                }
            }
            i = i + 1;
        }
        proof {
            assert(listing.take(self.files@.len() as int) =~= listing);
        }
        self.dir_sizes = sizes;
        // resolve the pending cursor policy
        let len = self.files.len();
        let new_cursor: Option<usize> = if len == 0 {
            None
        } else {
            let c: usize = match &self.pending_cursor {
                PendingCursor::Keep => {
                    let cur: usize = match self.cursor {
                        Some(c) => c,
                        None => 0,
                    };
                    if cur < len {
                        cur
                    } else {
                        len - 1
                    }
                },
                PendingCursor::Top => 0,
                PendingCursor::Hint(h) => {
                    if *h < len {
                        *h
                    } else {
                        len - 1
                    }
                },
                PendingCursor::PathMatch { path, hint } => {
                    proof {
                        lemma_find_path_bounds(views(self.files@), path@, 0);
                    }
                    match Self::find_path_index(&self.files, path) {
                        Some(i) => i,
                        None => {
                            if *hint < len {
                                *hint
                            } else {
                                len - 1
                            }
                        },
                    }
                },
            };
            Some(c)
        };
        self.cursor = new_cursor;
        self.pending_cursor = PendingCursor::Keep;
        // recompute the search annotations over the new listing
        crate::fuzzy::recompute_matches(self);
        proof {
            if self.search_query@.len() > 0 {
                crate::fuzzy::lemma_match_list_indices(views(self.files@), self.search_query@);
            }
        }
    }

    /// The paths of the marked rows, in mark order.
    pub fn marked_paths(&self) -> (r: Vec<String>)
        requires
            self.wf(),
        ensures
            r.deep_view() == marked_path_views(self.selected_indices@, views(self.files@)),
    {
        let mut r: Vec<String> = Vec::new();
        let mut i: usize = 0;
        while i < self.selected_indices.len()
            invariant
                self.wf(),
                i <= self.selected_indices@.len(),
                r.deep_view() =~= marked_path_views(
                    self.selected_indices@.take(i as int),
                    views(self.files@),
                ),
            decreases self.selected_indices@.len() - i,
        {
            let ghost r0 = r.deep_view();
            let idx = self.selected_indices[i];
            r.push(self.files[idx].path.clone());
            proof {
                assert(self.selected_indices@.take(i + 1) =~= self.selected_indices@.take(
                    i as int,
                ).push(self.selected_indices@[i as int]));
                assert(views(self.files@)[idx as int] == self.files@[idx as int]@);
                assert(r.deep_view() =~= r0.push(self.files@[idx as int]@.path));
                assert(r.deep_view() =~= marked_path_views(
                    self.selected_indices@.take(i + 1),
                    views(self.files@),
                ));
            }
            i = i + 1;
        }
        proof {
            assert(self.selected_indices@.take(self.selected_indices@.len() as int)
                =~= self.selected_indices@);
        }
        r
    }

    /// The ascending rows of `files` whose paths occur in `paths`.
    fn indices_of_paths(files: &Vec<FileEntry>, paths: &Vec<String>) -> (r: Vec<usize>)
        ensures
            forall|j: int|
                0 <= j < r@.len() ==> ((#[trigger] r@[j]) as int) < files@.len(),
            forall|j: int, k: int| 0 <= j < k < r@.len() ==> #[trigger] r@[j] < #[trigger] r@[k],
            r@.no_duplicates(),
            forall|t: int|
                0 <= t < files@.len() ==> (r@.contains(t as usize) <==> crate::file_ops::occ_contains(
                    paths.deep_view(),
                    #[trigger] files@[t]@.path,
                )),
    {
        let mut r: Vec<usize> = Vec::new();
        let mut i: usize = 0;
        while i < files.len()
            invariant
                i <= files@.len(),
                forall|j: int| 0 <= j < r@.len() ==> ((#[trigger] r@[j]) as int) < i,
                forall|j: int, k: int| 0 <= j < k < r@.len() ==> #[trigger] r@[j] < #[trigger] r@[k],
                forall|t: int|
                    0 <= t < i ==> (r@.contains(t as usize) <==> crate::file_ops::occ_contains(
                        paths.deep_view(),
                        #[trigger] files@[t]@.path,
                    )),
            decreases files@.len() - i,
        {
            let ghost r0 = r@;
            if crate::file_ops::contains_name(paths, &files[i].path) {
                r.push(i);
                proof {
                    assert(forall|t: int|
                        0 <= t < i ==> (r0.contains(t as usize) <==> #[trigger] r@.contains(
                            t as usize,
                        ))) by {
                        assert(forall|t: int|
                            0 <= t < r0.len() ==> r@[t] == #[trigger] r0[t]);
                        assert(r@.last() == i as usize);
                    }
                    assert(r@.contains(i as usize)) by {
                        assert(r@.last() == i as usize);
                    }
                }
            } else {
                proof {
                    assert(!r@.contains(i as usize)) by {
                        assert(forall|j: int|
                            0 <= j < r@.len() ==> ((#[trigger] r@[j]) as int) < i);
                    }
                }
            }
            i = i + 1;
        }
        proof {
            assert(r@.no_duplicates()) by {
                assert(forall|j: int, k: int|
                    0 <= j < r@.len() && 0 <= k < r@.len() && j != k ==> #[trigger] r@[j]
                        != #[trigger] r@[k]) by {
                    assert(forall|j: int, k: int|
                        0 <= j < k < r@.len() ==> #[trigger] r@[j] < #[trigger] r@[k]);
                }
            }
        }
        r
    }

    /// Re-sorts the listing under the active key and direction:
    /// directories first, each group stably ordered. Marks follow their
    /// entries by path identity; the cursor and everything else stay.
    /// The search annotations are recomputed over the new order.
    pub fn sort_files(&mut self)
        requires
            old(self).wf(),
        ensures
            final(self).wf(),
            *final(self) == (App {
                files: final(self).files,
                selected_indices: final(self).selected_indices,
                search_highlights: final(self).search_highlights,
                search_match_positions: final(self).search_match_positions,
                ..*old(self)
            }),
            views(final(self).files@) == spec_sort_listing(
                views(old(self).files@),
                old(self).sort_mode,
                old(self).sort_ascending,
            ),
            final(self).files@.len() == old(self).files@.len(),
            forall|t: int|
                0 <= t < final(self).files@.len() ==> (final(self).selected_indices@.contains(
                    t as usize,
                ) <==> crate::file_ops::occ_contains(
                    marked_path_views(old(self).selected_indices@, views(old(self).files@)),
                    #[trigger] views(final(self).files@)[t].path,
                )),
            final(self).search_query@.len() > 0 ==> crate::fuzzy::match_views(
                final(self).search_match_positions@,
            ) == crate::fuzzy::match_list(views(final(self).files@), final(self).search_query@),
    {
        let marked = self.marked_paths();
        let mut files: Vec<FileEntry> = Vec::new();
        core::mem::swap(&mut files, &mut self.files);
        proof {
            crate::entry::lemma_sort_listing_len(
                views(files@),
                self.sort_mode,
                self.sort_ascending,
            );
        }
        let sorted = sort_listing(files, self.sort_mode, self.sort_ascending);
        self.files = sorted;
        self.selected_indices = Self::indices_of_paths(&self.files, &marked);
        crate::fuzzy::recompute_matches(self);
        proof {
            if self.search_query@.len() > 0 {
                crate::fuzzy::lemma_match_list_indices(views(self.files@), self.search_query@);
            }
        }
    }

    /// Enters the directory under the cursor: pushes the current
    /// position onto both the ascent and the jump stack, moves to the
    /// entry's path, clears the search, and asks for the cursor to land
    /// on the first row of the next load. Returns the path to load, or
    /// nothing when the cursor is not on a directory.
    pub fn enter_directory(&mut self) -> (r: Option<String>)
        requires
            old(self).wf(),
        ensures
            final(self).wf(),
            match r {
                Option::Some(p) => {
                    &&& old(self).cursor matches Option::Some(i)
                    &&& views(old(self).files@)[i as int].is_dir
                    &&& p@ == views(old(self).files@)[i as int].path
                    &&& *final(self) == (App {
                        current_dir: final(self).current_dir,
                        nav_history: final(self).nav_history,
                        global_history: final(self).global_history,
                        search_query: final(self).search_query,
                        search_highlights: final(self).search_highlights,
                        search_match_positions: final(self).search_match_positions,
                        pending_cursor: final(self).pending_cursor,
                        ..*old(self)
                    })
                    &&& final(self).current_dir@ == p@
                    &&& final(self).nav_history@.len() == old(self).nav_history@.len() + 1
                    &&& final(self).nav_history@.drop_last() == old(self).nav_history@
                    &&& final(self).nav_history@.last().path@ == old(self).current_dir@
                    &&& final(self).nav_history@.last().selected_index == i
                    &&& final(self).global_history@.len() == old(self).global_history@.len() + 1
                    &&& final(self).global_history@.drop_last() == old(self).global_history@
                    &&& final(self).global_history@.last().path@ == old(self).current_dir@
                    &&& final(self).global_history@.last().selected_index == i
                    &&& final(self).search_query@.len() == 0
                    &&& final(self).search_highlights@.len() == 0
                    &&& final(self).pending_cursor@ == PendingV::Top
                },
                Option::None => {
                    &&& *final(self) == *old(self)
                    &&& match old(self).cursor {
                        Option::Some(i) => !views(old(self).files@)[i as int].is_dir,
                        Option::None => true,
                    }
                },
            },
    {
        let i: usize = match self.cursor {
            Some(i) => i,
            None => {
                return None;
            },
        };
        if !self.files[i].is_dir {
            return None;
        }
        let next_path = self.files[i].path.clone();
        let f1 = NavigationHistory { path: self.current_dir.clone(), selected_index: i };
        let f2 = NavigationHistory { path: self.current_dir.clone(), selected_index: i };
        self.nav_history.push(f1);
        self.global_history.push(f2);
        self.current_dir = next_path.clone();
        self.clear_search();
        self.pending_cursor = PendingCursor::Top;
        proof {
            assert(self.nav_history@.drop_last() =~= old(self).nav_history@);
            assert(self.global_history@.drop_last() =~= old(self).global_history@);
        }
        Some(next_path)
    }

    /// Goes to the parent: retraces the ascent stack when it has a
    /// frame, else falls back to the filesystem parent of the current
    /// path. Either way the current position is pushed onto the jump
    /// stack, the search is cleared, and the next load is asked to
    /// re-select the directory just departed, falling back to the
    /// remembered row (ascent) or the top (filesystem parent). Returns
    /// the path to load, or nothing at a root with no history.
    pub fn go_parent(&mut self) -> (r: Option<String>)
        requires
            old(self).wf(),
        ensures
            final(self).wf(),
            match r {
                Option::Some(p) => {
                    &&& *final(self) == (App {
                        current_dir: final(self).current_dir,
                        nav_history: final(self).nav_history,
                        global_history: final(self).global_history,
                        search_query: final(self).search_query,
                        search_highlights: final(self).search_highlights,
                        search_match_positions: final(self).search_match_positions,
                        pending_cursor: final(self).pending_cursor,
                        ..*old(self)
                    })
                    &&& final(self).current_dir@ == p@
                    &&& final(self).global_history@.len() == old(self).global_history@.len() + 1
                    &&& final(self).global_history@.drop_last() == old(self).global_history@
                    &&& final(self).global_history@.last().path@ == old(self).current_dir@
                    &&& final(self).global_history@.last().selected_index as int == (
                    match old(self).cursor {
                        Option::Some(c) => c as int,
                        Option::None => 0,
                    })
                    &&& final(self).search_query@.len() == 0
                    &&& final(self).search_highlights@.len() == 0
                    &&& (if old(self).nav_history@.len() > 0 {
                        &&& p@ == old(self).nav_history@.last().path@
                        &&& final(self).nav_history@ == old(self).nav_history@.drop_last()
                        &&& final(self).pending_cursor@ == (PendingV::PathMatch {
                            path: old(self).current_dir@,
                            hint: old(self).nav_history@.last().selected_index as int,
                        })
                    } else {
                        &&& parent_of(old(self).current_dir@) == Option::Some(p@)
                        &&& final(self).nav_history@ == old(self).nav_history@
                        &&& final(self).pending_cursor@ == (PendingV::PathMatch {
                            path: old(self).current_dir@,
                            hint: 0,
                        })
                    })
                },
                Option::None => {
                    &&& *final(self) == *old(self)
                    &&& old(self).nav_history@.len() == 0
                    &&& parent_of(old(self).current_dir@) is None
                },
            },
    {
        let cur: usize = match self.cursor {
            Some(c) => c,
            None => 0,
        };
        if self.nav_history.len() > 0 {
            let frame = self.nav_history.pop().unwrap();
            {
                let departed = self.current_dir.clone();
                self.global_history.push(
                    NavigationHistory { path: self.current_dir.clone(), selected_index: cur },
                );
                let hint = frame.selected_index;
                self.current_dir = frame.path.clone();
                self.pending_cursor = PendingCursor::PathMatch { path: departed, hint };
                self.clear_search();
                proof {
                    assert(self.global_history@.drop_last() =~= old(self).global_history@);
                    assert(self.nav_history@ =~= old(self).nav_history@.drop_last());
                }
                Some(frame.path)
            }
        } else {
            {
                match crate::text::parent_dir(self.current_dir.as_str()) {
                    Some(parent) => {
                        let departed = self.current_dir.clone();
                        self.global_history.push(
                            NavigationHistory {
                                path: self.current_dir.clone(),
                                selected_index: cur,
                            },
                        );
                        self.current_dir = parent.clone();
                        self.pending_cursor = PendingCursor::PathMatch { path: departed, hint: 0 };
                        self.clear_search();
                        proof {
                            assert(self.global_history@.drop_last() =~= old(
                                self,
                            ).global_history@);
                        }
                        Some(parent)
                    },
                    None => None,
                }
            }
        }
    }

    /// Pops the jump stack: returns to the recorded path, clears the
    /// search, and asks for the cursor to land on the recorded row,
    /// clamped to the new listing. Returns the path to load, or nothing
    /// when the stack is empty.
    pub fn go_back_in_history(&mut self) -> (r: Option<String>)
        requires
            old(self).wf(),
        ensures
            final(self).wf(),
            match r {
                Option::Some(p) => {
                    &&& old(self).global_history@.len() > 0
                    &&& p@ == old(self).global_history@.last().path@
                    &&& *final(self) == (App {
                        current_dir: final(self).current_dir,
                        global_history: final(self).global_history,
                        search_query: final(self).search_query,
                        search_highlights: final(self).search_highlights,
                        search_match_positions: final(self).search_match_positions,
                        pending_cursor: final(self).pending_cursor,
                        ..*old(self)
                    })
                    &&& final(self).current_dir@ == p@
                    &&& final(self).global_history@ == old(self).global_history@.drop_last()
                    &&& final(self).search_query@.len() == 0
                    &&& final(self).search_highlights@.len() == 0
                    &&& final(self).pending_cursor@ == PendingV::Hint(
                        old(self).global_history@.last().selected_index as int,
                    )
                },
                Option::None => {
                    &&& *final(self) == *old(self)
                    &&& old(self).global_history@.len() == 0
                },
            },
    {
        if self.global_history.len() > 0 {
            let frame = self.global_history.pop().unwrap();
            self.current_dir = frame.path.clone();
            self.pending_cursor = PendingCursor::Hint(frame.selected_index);
            self.clear_search();
            proof {
                assert(self.global_history@ =~= old(self).global_history@.drop_last());
            }
            Some(frame.path)
        } else {
            None
        }
    }

    /// Jumps straight to a directory (a quick-jump target): pushes the
    /// current position onto the jump stack, moves there, clears the
    /// search, and asks for the cursor to land on the first row.
    pub fn jump_to(&mut self, path: String)
        requires
            old(self).wf(),
        ensures
            final(self).wf(),
            *final(self) == (App {
                current_dir: final(self).current_dir,
                global_history: final(self).global_history,
                search_query: final(self).search_query,
                search_highlights: final(self).search_highlights,
                search_match_positions: final(self).search_match_positions,
                pending_cursor: final(self).pending_cursor,
                last_key: final(self).last_key,
                ..*old(self)
            }),
            final(self).current_dir == path,
            final(self).global_history@.len() == old(self).global_history@.len() + 1,
            final(self).global_history@.drop_last() == old(self).global_history@,
            final(self).global_history@.last().path@ == old(self).current_dir@,
            final(self).global_history@.last().selected_index as int == (match old(self).cursor {
                Option::Some(c) => c as int,
                Option::None => 0,
            }),
            final(self).search_query@.len() == 0,
            final(self).search_highlights@.len() == 0,
            final(self).pending_cursor@ == PendingV::Top,
            final(self).last_key@.len() == 0,
    {
        let cur: usize = match self.cursor {
            Some(c) => c,
            None => 0,
        };
        self.global_history.push(
            NavigationHistory { path: self.current_dir.clone(), selected_index: cur },
        );
        self.current_dir = path;
        self.pending_cursor = PendingCursor::Top;
        self.clear_search();
        self.last_key = String::new();
        proof {
            assert(self.global_history@.drop_last() =~= old(self).global_history@);
        }
    }

    /// Flips the hidden-file switch; the caller reloads the listing,
    /// which keeps the cursor near its row.
    pub fn toggle_hidden(&mut self)
        requires
            old(self).wf(),
        ensures
            final(self).wf(),
            *final(self) == (App {
                show_hidden: !old(self).show_hidden,
                pending_cursor: final(self).pending_cursor,
                ..*old(self)
            }),
            final(self).pending_cursor@ == PendingV::Keep,
    {
        self.show_hidden = !self.show_hidden;
        self.pending_cursor = PendingCursor::Keep;
    }

    /// Merges one finished background size computation: the result is
    /// stored under its path if that directory is still in the cache,
    /// and silently dropped otherwise — results for paths that are no
    /// longer relevant never touch the state.
    pub fn apply_size_result(&mut self, path: &String, size: u64)
        ensures
            *final(self) == (App { dir_sizes: final(self).dir_sizes, ..*old(self) }),
            final(self).dir_sizes@.len() == old(self).dir_sizes@.len(),
            forall|j: int|
                0 <= j < final(self).dir_sizes@.len() ==> #[trigger] final(self).dir_sizes@[j].path
                    == old(self).dir_sizes@[j].path,
            forall|j: int|
                0 <= j < final(self).dir_sizes@.len() && old(self).dir_sizes@[j].path@ != path@
                    ==> #[trigger] final(self).dir_sizes@[j].size == old(self).dir_sizes@[j].size,
            forall|j: int|
                0 <= j < final(self).dir_sizes@.len() && old(self).dir_sizes@[j].path@ == path@
                    ==> #[trigger] final(self).dir_sizes@[j].size == Option::Some(size),
    {
        let mut i: usize = 0;
        while i < self.dir_sizes.len()
            invariant
                i <= self.dir_sizes@.len(),
                *self == (App { dir_sizes: self.dir_sizes, ..*old(self) }),
                self.dir_sizes@.len() == old(self).dir_sizes@.len(),
                forall|j: int|
                    0 <= j < self.dir_sizes@.len() ==> #[trigger] self.dir_sizes@[j].path == old(
                        self,
                    ).dir_sizes@[j].path,
                forall|j: int|
                    i <= j < self.dir_sizes@.len() ==> #[trigger] self.dir_sizes@[j].size == old(
                        self,
                    ).dir_sizes@[j].size,
                forall|j: int|
                    0 <= j < i && old(self).dir_sizes@[j].path@ != path@
                        ==> #[trigger] self.dir_sizes@[j].size == old(self).dir_sizes@[j].size,
                forall|j: int|
                    0 <= j < i && old(self).dir_sizes@[j].path@ == path@
                        ==> #[trigger] self.dir_sizes@[j].size == Option::Some(size),
            decreases self.dir_sizes@.len() - i,
    {
            if self.dir_sizes[i].path.eq(path) {
                let p = self.dir_sizes[i].path.clone();
                self.dir_sizes.set(i, DirSize { path: p, size: Some(size) });
            }
            i = i + 1;
        }
    }

    /// Toggles the mark on the cursor row: marked rows lose the mark,
    /// unmarked rows gain it (appended in mark order). Without a cursor
    /// nothing changes.
    pub fn toggle_mark(&mut self)
        requires
            old(self).wf(),
        ensures
            final(self).wf(),
            *final(self) == (App {
                selected_indices: final(self).selected_indices,
                ..*old(self)
            }),
            match old(self).cursor {
                Option::None => final(self).selected_indices@ == old(self).selected_indices@,
                Option::Some(c) => {
                    if old(self).selected_indices@.contains(c) {
                        final(self).selected_indices@ == old(self).selected_indices@.remove(
                            old(self).selected_indices@.index_of_first(c).unwrap(),
                        )
                    } else {
                        final(self).selected_indices@ == old(self).selected_indices@.push(c)
                    }
                },
            },
    {
        let c: usize = match self.cursor {
            Some(c) => c,
            None => {
                return ;
            },
        };
        let mut pos: usize = 0;
        let n = self.selected_indices.len();
        while pos < n
            invariant
                old(self).wf(),
                pos <= n,
                n == self.selected_indices@.len(),
                *self == *old(self),
                old(self).cursor == Option::Some(c),
                forall|j: int| 0 <= j < pos ==> #[trigger] self.selected_indices@[j] != c,
            decreases n - pos,
        {
            if self.selected_indices[pos] == c {
                proof {
                    self.selected_indices@.index_of_first_ensures(c);
                    assert(self.selected_indices@.contains(c)) by {
                        assert(self.selected_indices@[pos as int] == c);
                    }
                }
                self.selected_indices.remove(pos);
                proof {
                    let oldsel = old(self).selected_indices@;
                    let newsel = self.selected_indices@;
                    assert(forall|a: int|
                        0 <= a < newsel.len() ==> #[trigger] newsel[a] == (if a < pos as int {
                            oldsel[a]
                        } else {
                            oldsel[a + 1]
                        }));
                    assert(newsel.no_duplicates());
                }
                return ;
            }
            pos = pos + 1;
        }
        proof {
            assert(!self.selected_indices@.contains(c));
        }
        self.selected_indices.push(c);
    }

    /// Adds the cursor row to the marks if it is not there yet; the
    /// extend-as-you-move mode calls this after every cursor step.
    pub fn mark_cursor(&mut self)
        requires
            old(self).wf(),
        ensures
            final(self).wf(),
            *final(self) == (App {
                selected_indices: final(self).selected_indices,
                ..*old(self)
            }),
            match old(self).cursor {
                Option::None => final(self).selected_indices@ == old(self).selected_indices@,
                Option::Some(c) => {
                    if old(self).selected_indices@.contains(c) {
                        final(self).selected_indices@ == old(self).selected_indices@
                    } else {
                        final(self).selected_indices@ == old(self).selected_indices@.push(c)
                    }
                },
            },
    {
        let c: usize = match self.cursor {
            Some(c) => c,
            None => {
                return ;
            },
        };
        let mut pos: usize = 0;
        let n = self.selected_indices.len();
        while pos < n
            invariant
                old(self).wf(),
                pos <= n,
                n == self.selected_indices@.len(),
                *self == *old(self),
                old(self).cursor == Option::Some(c),
                forall|j: int| 0 <= j < pos ==> #[trigger] self.selected_indices@[j] != c,
            decreases n - pos,
        {
            if self.selected_indices[pos] == c {
                proof {
                    assert(self.selected_indices@.contains(c)) by {
                        assert(self.selected_indices@[pos as int] == c);
                    }
                }
                return ;
            }
            pos = pos + 1;
        }
        proof {
            assert(!self.selected_indices@.contains(c));
        }
        self.selected_indices.push(c);
    }

    /// Removes the cursor row from the marks if it is there.
    pub fn unmark_cursor(&mut self)
        requires
            old(self).wf(),
        ensures
            final(self).wf(),
            *final(self) == (App {
                selected_indices: final(self).selected_indices,
                ..*old(self)
            }),
            match old(self).cursor {
                Option::None => final(self).selected_indices@ == old(self).selected_indices@,
                Option::Some(c) => {
                    if old(self).selected_indices@.contains(c) {
                        final(self).selected_indices@ == old(self).selected_indices@.remove(
                            old(self).selected_indices@.index_of_first(c).unwrap(),
                        )
                    } else {
                        final(self).selected_indices@ == old(self).selected_indices@
                    }
                },
            },
    {
        let c: usize = match self.cursor {
            Some(c) => c,
            None => {
                return ;
            },
        };
        let mut pos: usize = 0;
        let n = self.selected_indices.len();
        while pos < n
            invariant
                old(self).wf(),
                pos <= n,
                n == self.selected_indices@.len(),
                *self == *old(self),
                old(self).cursor == Option::Some(c),
                forall|j: int| 0 <= j < pos ==> #[trigger] self.selected_indices@[j] != c,
            decreases n - pos,
        {
            if self.selected_indices[pos] == c {
                proof {
                    self.selected_indices@.index_of_first_ensures(c);
                    assert(self.selected_indices@.contains(c)) by {
                        assert(self.selected_indices@[pos as int] == c);
                    }
                }
                self.selected_indices.remove(pos);
                return ;
            }
            pos = pos + 1;
        }
        proof {
            assert(!self.selected_indices@.contains(c));
        }
    }
}

/// Pairwise-distinct entry paths: the shape of every real directory
/// listing, since a directory's child names are unique and each entry's
/// path is the directory joined with its name.
pub open spec fn distinct_paths(s: Seq<EntryV>) -> bool {
    forall|i: int, j: int|
        0 <= i < j < s.len() ==> (#[trigger] s[i].path) != (#[trigger] s[j].path)
}

/// Scanning from `i`, the first hit for the path of row `c` is `c`
/// itself when no earlier remaining row shares it.
proof fn lemma_find_path_from_unique(listing: Seq<EntryV>, c: int, i: int)
    requires
        0 <= i <= c < listing.len(),
        forall|j: int| i <= j < c ==> (#[trigger] listing[j].path) != listing[c].path,
    ensures
        find_path_from(listing, listing[c].path, i) == Option::Some(c),
    decreases c - i,
{
    if i < c {
        lemma_find_path_from_unique(listing, c, i + 1);
    }
}

/// In a listing with pairwise-distinct paths, relocation by path finds
/// exactly the row that carries it.
pub proof fn lemma_find_path_unique(listing: Seq<EntryV>, c: int)
    requires
        0 <= c < listing.len(),
        distinct_paths(listing),
    ensures
        find_path_from(listing, listing[c].path, 0) == Option::Some(c),
{
    lemma_find_path_from_unique(listing, c, 0);
}

/// Entering a directory and immediately going back to the parent
/// re-selects the entry that was entered, whatever the child directory's
/// own sort order was: entering records the entry's path as the current
/// directory, going to the parent asks the next load to re-select the
/// departed path, and — the parent's content and sort settings being
/// unchanged — the reload installs the identical listing, in which that
/// path names exactly its old row. The hint plays no part: the path
/// match wins over it.
pub proof fn lemma_enter_then_parent_reselects(
    listing: Seq<EntryV>,
    c: int,
    old_cursor: Option<usize>,
    hint: int,
)
    requires
        0 <= c < listing.len(),
        listing[c].is_dir,
        distinct_paths(listing),
    ensures
        resolve_cursor(
            PendingV::PathMatch { path: listing[c].path, hint },
            old_cursor,
            listing,
        ) == Option::Some(c),
{
    lemma_find_path_unique(listing, c);
}

/// Pairwise-distinct entry names: what any real directory read delivers,
/// since a directory cannot hold two children with one name.
pub open spec fn distinct_names(s: Seq<EntryV>) -> bool {
    forall|i: int, j: int|
        0 <= i < j < s.len() ==> (#[trigger] s[i].name) != (#[trigger] s[j].name)
}

/// Preparing a raw read keeps names from the read, stamps each entry's
/// path as the directory joined with its name, and — the names being
/// distinct — leaves the paths pairwise distinct.
pub proof fn lemma_prepare_distinct(raw: Seq<EntryV>, dir: Seq<char>, sh: bool)
    requires
        distinct_names(raw),
    ensures
        distinct_paths(spec_prepare(raw, dir, sh)),
        forall|k: int|
            0 <= k < spec_prepare(raw, dir, sh).len() ==> (#[trigger] spec_prepare(
                raw,
                dir,
                sh,
            )[k].path) == join_of(dir, spec_prepare(raw, dir, sh)[k].name),
        forall|k: int|
            0 <= k < spec_prepare(raw, dir, sh).len() ==> exists|t: int|
                0 <= t < raw.len() && raw[t].name == (#[trigger] spec_prepare(
                    raw,
                    dir,
                    sh,
                )[k].name),
    decreases raw.len(),
{
    reveal(Seq::filter);
    let prep = spec_prepare(raw, dir, sh);
    if raw.len() > 0 {
        let d = raw.drop_last();
        assert(distinct_names(d));
        lemma_prepare_distinct(d, dir, sh);
        let pd = spec_prepare(d, dir, sh);
        let fr = raw.filter(keep_pred(sh));
        let fd = d.filter(keep_pred(sh));
        if keep_pred(sh)(raw.last()) {
            assert(fr == fd.push(raw.last()));
            assert(prep =~= pd.push(with_path(dir, raw.last())));
        } else {
            assert(fr == fd);
            assert(prep =~= pd);
        }
        assert forall|k: int|
            0 <= k < prep.len() implies exists|t: int|
            0 <= t < raw.len() && raw[t].name == (#[trigger] prep[k].name) by {
            if k < pd.len() {
                assert(prep[k] == pd[k]);
                let t = choose|t: int| 0 <= t < d.len() && d[t].name == pd[k].name;
                assert(raw[t].name == prep[k].name);
            } else {
                assert(prep[k].name == raw[raw.len() - 1].name);
            }
        }
        assert forall|i: int, j: int|
            0 <= i < j < prep.len() implies (#[trigger] prep[i].path) != (
        #[trigger] prep[j].path) by {
            if j == prep.len() - 1 && prep.len() > pd.len() {
                // a new last entry: its name differs from every earlier name
                if prep[i].path == prep[j].path {
                    crate::text::lemma_join_of_injective(dir, prep[i].name, prep[j].name);
                    let t = choose|t: int| 0 <= t < d.len() && d[t].name == pd[i].name;
                    assert(raw[t].name == raw[raw.len() - 1].name);
                }
            } else {
                assert(prep[i] == pd[i] && prep[j] == pd[j]);
            }
        }
    }
}

/// Sorting keeps the paths of a listing pairwise distinct.
pub proof fn lemma_sort_listing_distinct(s: Seq<EntryV>, key: SortMode, asc: bool)
    requires
        distinct_paths(s),
    ensures
        distinct_paths(spec_sort_listing(s, key, asc)),
{
    // paths distinct makes the entry values themselves distinct
    assert(s.no_duplicates()) by {
        assert forall|i: int, j: int|
            (0 <= i < s.len() && 0 <= j < s.len() && i != j) implies s[i] != s[j] by {
            if i < j {
                assert(s[i].path != s[j].path);
            } else {
                assert(s[j].path != s[i].path);
            }
        }
    }
    let dpred = crate::entry::is_dir_pred();
    let fpred = crate::entry::is_file_pred();
    let fd = s.filter(dpred);
    let ff = s.filter(fpred);
    crate::entry::lemma_filter_no_dup(s, dpred);
    crate::entry::lemma_filter_no_dup(s, fpred);
    crate::entry::lemma_filter_elem_of(s, dpred);
    crate::entry::lemma_filter_elem_of(s, fpred);
    crate::entry::lemma_dir_le_preorder(key, asc);
    crate::entry::lemma_file_le_preorder(key, asc);
    crate::entry::lemma_spec_sort_elems(fd, crate::entry::dir_le_fn(key, asc));
    crate::entry::lemma_spec_sort_elems(ff, crate::entry::file_le_fn(key, asc));
    let ds = crate::entry::spec_sort(fd, crate::entry::dir_le_fn(key, asc));
    let fs = crate::entry::spec_sort(ff, crate::entry::file_le_fn(key, asc));
    let r = spec_sort_listing(s, key, asc);
    // every element of the result is an element of s
    assert forall|k: int|
        0 <= k < r.len() implies exists|t: int| 0 <= t < s.len() && s[t] == #[trigger] r[k] by {
        if k < ds.len() {
            assert(r[k] == ds[k]);
            let w = choose|w: int| 0 <= w < fd.len() && fd[w] == ds[k];
            assert(fd[w] == r[k]);
            let t = choose|t: int| 0 <= t < s.len() && s[t] == fd[w];
            assert(s[t] == r[k]);
        } else {
            assert(r[k] == fs[k - ds.len()]);
            let w = choose|w: int| 0 <= w < ff.len() && ff[w] == fs[k - ds.len()];
            assert(ff[w] == r[k]);
            let t = choose|t: int| 0 <= t < s.len() && s[t] == ff[w];
            assert(s[t] == r[k]);
        }
    }
    // the two sorted groups are duplicate-free and cannot share a value:
    // one holds directories, the other files
    assert forall|k: int| 0 <= k < ds.len() implies #[trigger] ds[k].is_dir by {
        let w = choose|w: int| 0 <= w < fd.len() && fd[w] == ds[k];
        assert(dpred(fd[w]));
    }
    assert forall|k: int| 0 <= k < fs.len() implies !(#[trigger] fs[k].is_dir) by {
        let w = choose|w: int| 0 <= w < ff.len() && ff[w] == fs[k];
        assert(fpred(ff[w]));
    }
    assert forall|i: int, j: int|
        0 <= i < j < r.len() implies (#[trigger] r[i].path) != (#[trigger] r[j].path) by {
        if r[i].path == r[j].path {
            // r[i] and r[j] are distinct values: within one group by its
            // no-duplicates, across groups by the is_dir flag
            if i < ds.len() && j < ds.len() {
                assert(r[i] == ds[i] && r[j] == ds[j]);
                assert(ds[i] != ds[j]);
            } else if i >= ds.len() && j >= ds.len() {
                assert(r[i] == fs[i - ds.len()] && r[j] == fs[j - ds.len()]);
                assert(fs[i - ds.len()] != fs[j - ds.len()]);
            } else {
                assert(r[i].is_dir && !r[j].is_dir);
            }
            // two distinct values of s with one path contradict s
            let t1 = choose|t: int| 0 <= t < s.len() && s[t] == r[i];
            let t2 = choose|t: int| 0 <= t < s.len() && s[t] == r[j];
            assert(t1 != t2);
            if t1 < t2 {
                assert(s[t1].path != s[t2].path);
            } else {
                assert(s[t2].path != s[t1].path);
            }
        }
    }
}

/// A listing loaded from a directory read with pairwise-distinct names
/// has pairwise-distinct paths — the condition under which going back to
/// the parent re-selects the entered entry.
pub proof fn lemma_listing_distinct(
    raw: Seq<EntryV>,
    dir: Seq<char>,
    sh: bool,
    key: SortMode,
    asc: bool,
)
    requires
        distinct_names(raw),
    ensures
        distinct_paths(spec_listing(raw, dir, sh, key, asc)),
{
    lemma_prepare_distinct(raw, dir, sh);
    lemma_sort_listing_distinct(spec_prepare(raw, dir, sh), key, asc);
}

} // verus!
