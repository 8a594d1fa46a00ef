use vstd::prelude::*;
use vstd::string::StringExecFns;

use crate::config::bookmarks::{Bookmark, BookmarkStore};
use crate::model::node::DiskNode;
use crate::scanner::walker::{ScanUpdate, ScanWarnings};
use crate::strings::texts;
use crate::tui::filter::{opt_filter_ok, FilterCriteria};
use crate::model::metadata::{metadata_lines, FileMetadata};
use crate::tui::overlay::{
    SearchEntry, action_ok, handle_overlay_key, overlay_ok, overlay_step, search_entries, search_outcome, Overlay,
    OverlayAction,
};
use crate::tui::browse::{
    entries_from, entry_views, handle_nav_key_at, handle_tree_key_at, handle_treemap_key_at,
    collect_all_entries, nav_key_step, tree_key_step, treemap_key_step,
};
use crate::tui::input::{is_char, KeyCode, KeyPress};
use crate::tui::widgets::text_input::TextInputState;
use crate::config::bookmarks::{has_path, same_place};
use crate::strings::{file_name_of, path_file_name};
use crate::tui::views::bar::BarState;
use crate::tui::views::nav::ViewNavState;
use crate::strings::{
    components_of, copy_indices, copy_names, decimal, path_components, path_relative_to,
    strip_path_prefix,
};
use crate::tui::browse::{bar_row_spec, sync_bar_list_selection_at};
use crate::tui::views::nav::{ensure_valid_spec, NavModel};
use crate::tui::views::tree::{
    clamp_spec, clock_for, clock_reading, first_named, flatten_from, flatten_tree,
    flatten_tree_filtered_at, lemma_first_named_from, lemma_walk_prefix, lemma_walk_push, node_at,
    join_all, names_on_path, named_selection_path, node_by_names, position_of_name,
    removed_from, resolve_fs_path, resolve_fs_path_by_name_path, resolve_node, rows_view,
    walk_name_path, walk_names, FlatRow, RowModel, TreeModel, TreeViewState,
};
use crate::config::bookmarks::bookmark_view;
use crate::model::node::NodeType;
use crate::tui::widgets::text_input::char_count;
use crate::tui::views::treemap::{no_area, rects_fit, TreemapState};
use crate::tui::ViewMode;
use crate::tui::views::tree::{lemma_names_len, lemma_node_at_parent, lemma_path_push};
use crate::model::order::{default_sort, next_field, sorted_by, SortConfig};

verus! {

/// The state of the views once the scan is done: the scanned tree, each view's
/// selection, the tree view's rows and the active filter.
pub struct BrowsingState {
    pub root: DiskNode,
    pub tree_state: TreeViewState,
    pub flat_rows: Vec<FlatRow>,
    pub nav: ViewNavState,
    pub bar_state: BarState,
    pub treemap_state: TreemapState,
    pub sort_config: SortConfig,
    pub active_filter: Option<FilterCriteria>,
}

/// Where the application is: scanning (with the counts so far and the spinner's tick),
/// browsing the result, or stopped by an error.
pub enum AppState {
    Scanning { files_found: u64, bytes_found: u64, spinner_tick: usize },
    Browsing(BrowsingState),
    Error(String),
}

/// The application's decisions: what is shown, what each key does, and what must be
/// done outside (saving bookmarks, reading file information, deleting) in answer.
pub struct App {
    pub state: AppState,
    pub view_mode: ViewMode,
    pub overlay: Option<Overlay>,
    pub root_path: String,
    pub use_trash: bool,
    pub bookmarks: BookmarkStore,
    pub scan_warnings: ScanWarnings,
    pub startup_notices: Vec<String>,
}

/// The active filter of `b`, as the views take it.
pub open spec fn filter_of(b: &BrowsingState) -> Option<&FilterCriteria> {
    match &b.active_filter {
        Some(f) => Some(f),
        None => None,
    }
}

/// The conditions the views rely on: a filter whose day count the clock can take, and a
/// treemap laid out within the coordinate limit.
pub open spec fn browsing_ok(b: BrowsingState) -> bool {
    opt_filter_ok(filter_of(&b)) && rects_fit(b.treemap_state.cached_rects@)
}

/// The conditions under which the application handles keys.
pub open spec fn app_ok(a: App) -> bool {
    &&& (a.state matches AppState::Browsing(b) ==> browsing_ok(b))
    &&& (a.overlay matches Some(o) ==> overlay_ok(o))
}

/// `b` is the fresh browsing state for the tree `root`: nothing expanded, the cursor on
/// the first row, the views at the root with nothing selected, no layout and no filter.
pub open spec fn fresh_browsing(b: BrowsingState, root: DiskNode) -> bool {
    &&& b.root == root
    &&& b.tree_state@ == TreeModel {
        cursor: 0,
        expanded: Set::empty(),
        list_selected: Some(0usize),
    }
    &&& rows_view(b.flat_rows@) == flatten_from(
        root.children@,
        0,
        Set::empty(),
        None,
        0,
        Seq::empty(),
        Seq::empty(),
    )
    &&& b.nav@.dir.len() == 0
    &&& b.nav@.selected.len() == 0
    &&& b.bar_state.selected == Some(0usize)
    &&& b.treemap_state.cached_rects@.len() == 0
    &&& b.treemap_state.cached_visible@.len() == 0
    &&& b.treemap_state.cached_area == no_area()
    &&& b.sort_config == default_sort()
    &&& b.active_filter is None
}

impl BrowsingState {
    /// The state for browsing `root` right after the scan.
    pub fn from_root(root: DiskNode) -> (b: Self)
        ensures
            fresh_browsing(b, root),
            browsing_ok(b),
    {
        let tree_state = TreeViewState::new();
        let flat_rows = flatten_tree(&root, &tree_state.expanded);
        BrowsingState {
            root,
            tree_state,
            flat_rows,
            nav: ViewNavState::new(),
            bar_state: BarState::new(),
            treemap_state: TreemapState::new(),
            sort_config: SortConfig::default(),
            active_filter: None,
        }
    }
}

/// `parts` joined with `sep` between each two.
pub open spec fn joined(parts: Seq<Seq<char>>, sep: Seq<char>) -> Seq<char>
    decreases parts.len(),
{
    if parts.len() == 0 {
        Seq::empty()
    } else if parts.len() == 1 {
        parts[0]
    } else {
        joined(parts.drop_last(), sep) + sep + parts.last()
    }
}

fn join_texts(parts: &Vec<String>, sep: &str) -> (s: String)
    ensures
        s@ == joined(texts(parts@), sep@),
{
    let mut s = String::new();
    let mut i: usize = 0;
    while i < parts.len()
        invariant
            i <= parts@.len(),
            s@ == joined(texts(parts@.subrange(0, i as int)), sep@),
        decreases parts@.len() - i,
    {
        let ghost prev = texts(parts@.subrange(0, i as int));
        proof {
            assert(texts(parts@.subrange(0, i as int + 1)).drop_last() =~= prev);
        }
        if i > 0 {
            s.append(sep);
        }
        s.append(parts[i].as_str());
        proof {
            let cur = texts(parts@.subrange(0, i as int + 1));
            assert(cur.last() == parts@[i as int]@);
            if i == 0 {
                assert(s@ =~= cur[0]);
            }
        }
        i = i + 1;
    }
    proof {
        assert(parts@.subrange(0, parts@.len() as int) =~= parts@);
    }
    s
}

/// Whether `s` is the scanning state with these counts and tick.
pub open spec fn scanning_with(s: AppState, files: u64, bytes: u64, tick: usize) -> bool {
    s matches AppState::Scanning { files_found, bytes_found, spinner_tick } && files_found == files
        && bytes_found == bytes && spinner_tick == tick
}

/// Whether the application fields other than the state, the overlay and the notices are
/// as in `b`.
pub open spec fn same_settings(a: App, b: App) -> bool {
    &&& a.view_mode == b.view_mode
    &&& a.root_path == b.root_path
    &&& a.use_trash == b.use_trash
    &&& a.bookmarks@ == b.bookmarks@
    &&& a.scan_warnings == b.scan_warnings
}

/// The overlay and notices after the pending notices are shown: with notices pending,
/// they are joined with " | " into a flash message and cleared.
pub open spec fn flushed(old_notices: Seq<Seq<char>>, old_overlay: Option<Overlay>, new: App) -> bool {
    if old_notices.len() == 0 {
        new.overlay == old_overlay && new.startup_notices@.len() == 0
    } else {
        &&& new.startup_notices@.len() == 0
        &&& new.overlay matches Some(Overlay::Flash { message }) && message@ == joined(
            old_notices,
            " | "@,
        )
    }
}

/// The effect of `App::switch_to_nav_view` on `old`, giving `new`.
pub open spec fn view_switched(old: App, mode: ViewMode, new: App) -> bool {
    &&& new.view_mode == mode
    &&& match old.state {
            AppState::Browsing(b) => new.state matches AppState::Browsing(nb) && nb.root
                == b.root && nb.tree_state@ == b.tree_state@ && nb.flat_rows == b.flat_rows
                && nb.nav@ == b.nav@ && nb.bar_state == b.bar_state && nb.active_filter
                == b.active_filter && nb.sort_config == b.sort_config && if mode == ViewMode::Treemap {
                layout_dropped(nb)
            } else {
                nb.treemap_state == b.treemap_state
            },
            _ => new.state == old.state,
        }
    &&& new.overlay == old.overlay
    &&& new.startup_notices == old.startup_notices
    &&& new.root_path == old.root_path
    &&& new.bookmarks@ == old.bookmarks@
    &&& new.scan_warnings == old.scan_warnings
    &&& new.use_trash == old.use_trash
}

/// The effect of `App::apply_filter` on `old`, giving `new`.
pub open spec fn filter_applied(old: App, criteria: Option<FilterCriteria>, new: App) -> bool {
    &&& match old.state {
            AppState::Browsing(b) => new.state matches AppState::Browsing(nb) && {
                &&& nb.active_filter == criteria
                &&& nb.root == b.root
                &&& nb.sort_config == b.sort_config
                &&& nb.bar_state == b.bar_state
                &&& layout_dropped(nb)
                &&& exists|t: i128|
                    clock_reading(filter_of(&nb), t) && rows_view(nb.flat_rows@) == tree_rows(
                        b.root,
                        b.tree_state@.expanded,
                        filter_of(&nb),
                        t as int,
                    ) && nb.tree_state@ == clamp_spec(b.tree_state@, nb.flat_rows@.len() as int)
                        && nb.nav@ == ensure_valid_spec(b.nav@, b.root, filter_of(&nb), t as int)
            },
            _ => new.state == old.state,
        }
    &&& new.overlay == old.overlay
    &&& new.startup_notices == old.startup_notices
    &&& same_settings(new, old)
}

/// The effect of `App::jump_to_search_result` on `old`, giving `new`.
pub open spec fn search_jumped(old: App, path_indices: Seq<usize>, name_path: Seq<Seq<char>>, new: App) -> bool {
    &&& match old.state {
            AppState::Browsing(b) => new.state matches AppState::Browsing(nb)
                && shown_entry(
                b,
                nb,
                add_prefixes(b.tree_state@.expanded, name_path, name_path.len() as int),
                path_indices,
                name_path,
            ),
            _ => new.state == old.state,
        }
    &&& new.overlay == old.overlay
    &&& new.startup_notices == old.startup_notices
    &&& same_settings(new, old)
}

/// The effect of `App::jump_to_bookmark` on `old`, giving `new`.
pub open spec fn bookmark_jumped(old: App, path: Seq<char>, new: App) -> bool {
    &&& match path_relative_to(path, old.root_path@) {
            None => {
                &&& new.overlay matches Some(Overlay::Flash { message }) && message@
                    == "Bookmark outside current scan — rescan needed"@
                &&& new.state == old.state
            },
            Some(rel) => {
                &&& new.overlay == old.overlay
                &&& match old.state {
                    AppState::Browsing(b) => new.state matches AppState::Browsing(nb)
                        && bookmark_jump(b, nb, rel),
                    _ => new.state == old.state,
                }
            },
        }
    &&& new.startup_notices == old.startup_notices
    &&& same_settings(new, old)
}

/// The effect of `App::update_search_results` on `old`, giving `new`.
pub open spec fn searched(old: App, new: App) -> bool {
    &&& match old.overlay {
            Some(Overlay::Search { input, all_entries, .. }) => new.overlay matches Some(
                Overlay::Search { input: i, all_entries: a, results, selected, list_selected },
            ) && i == input && a == all_entries && search_outcome(
                results@,
                all_entries@,
                input.query@,
            ) && selected == 0 && list_selected == (if results@.len() == 0 {
                None
            } else {
                Some(0usize)
            }),
            _ => new.overlay == old.overlay,
        }
    &&& new.state == old.state
    &&& new.startup_notices == old.startup_notices
    &&& same_settings(new, old)
}

impl App {
    /// The application at the start of a scan of `root_path`, with the bookmarks as
    /// loaded: when loading failed, no bookmarks and a notice saying why.
    pub fn new(root_path: String, use_trash: bool, loaded: Result<BookmarkStore, String>) -> (a: Self)
        ensures
            scanning_with(a.state, 0, 0, 0),
            a.view_mode == ViewMode::Tree,
            a.overlay is None,
            a.root_path@ == root_path@,
            a.use_trash == use_trash,
            a.scan_warnings.skipped_entries == 0,
            match loaded {
                Ok(b) => a.bookmarks@ == b@ && a.startup_notices@.len() == 0,
                Err(e) => a.bookmarks@.len() == 0 && texts(a.startup_notices@) == seq![
                    "Bookmarks unavailable: "@ + e@,
                ],
            },
            app_ok(a),
    {
        let (bookmarks, startup_notices) = match loaded {
            Ok(b) => (b, Vec::new()),
            Err(e) => {
                let mut notice = String::from_str("Bookmarks unavailable: ");
                notice.append(e.as_str());
                let mut notices: Vec<String> = Vec::new();
                notices.push(notice);
                proof {
                    assert(texts(notices@) =~= seq!["Bookmarks unavailable: "@ + e@]);
                }
                (BookmarkStore::default(), notices)
            },
        };
        App {
            state: AppState::Scanning { files_found: 0, bytes_found: 0, spinner_tick: 0 },
            view_mode: ViewMode::Tree,
            overlay: None,
            root_path,
            use_trash,
            bookmarks,
            scan_warnings: ScanWarnings { skipped_entries: 0 },
            startup_notices,
        }
    }

    /// Show the pending notices in a flash message.
    pub fn flush_notices(&mut self)
        ensures
            flushed(texts(old(self).startup_notices@), old(self).overlay, *final(self)),
            same_settings(*final(self), *old(self)),
            final(self).state == old(self).state,
    {
        if self.startup_notices.len() == 0 {
            return;
        }
        let message = join_texts(&self.startup_notices, " | ");
        self.startup_notices = Vec::new();
        self.overlay = Some(Overlay::Flash { message });
    }

    /// Advance the spinner while scanning.
    pub fn tick(&mut self)
        ensures
            match old(self).state {
                AppState::Scanning { files_found, bytes_found, spinner_tick } => scanning_with(
                    final(self).state,
                    files_found,
                    bytes_found,
                    if spinner_tick == usize::MAX {
                        0
                    } else {
                        (spinner_tick + 1) as usize
                    },
                ),
                _ => final(self).state == old(self).state,
            },
            same_settings(*final(self), *old(self)),
            final(self).overlay == old(self).overlay,
            final(self).startup_notices == old(self).startup_notices,
    {
        match &mut self.state {
            AppState::Scanning { spinner_tick, .. } => {
                *spinner_tick = if *spinner_tick == usize::MAX {
                    0
                } else {
                    *spinner_tick + 1
                };
            },
            _ => {},
        }
    }
}

/// The notice a scan's warnings give, if any.
pub open spec fn warning_notices(w: ScanWarnings) -> Seq<Seq<char>> {
    if w.skipped_entries == 0 {
        Seq::empty()
    } else {
        seq!["Skipped "@ + decimal(w.skipped_entries as nat) + " unreadable entries"@]
    }
}

/// The rows of the tree view of `root` with the expanded paths `expanded`, under
/// `filter` with the clock at `now`.
pub open spec fn tree_rows(
    root: DiskNode,
    expanded: Set<Seq<Seq<char>>>,
    filter: Option<&FilterCriteria>,
    now: int,
) -> Seq<RowModel> {
    flatten_from(root.children@, 0, expanded, filter, now, Seq::empty(), Seq::empty())
}

/// The place of the first row of `rows` whose index path is `p`, or -1.
pub open spec fn row_with_indices(rows: Seq<FlatRow>, p: Seq<usize>, i: int) -> int
    decreases rows.len() - i,
{
    if i < 0 || i >= rows.len() {
        -1
    } else if rows[i].path_indices@ == p {
        i
    } else {
        row_with_indices(rows, p, i + 1)
    }
}

/// `new` has the tree cursor on the row with index path `p` when there is one (the
/// first), else the cursor of `old`.
pub open spec fn cursor_on_path(old: TreeModel, new: TreeModel, rows: Seq<FlatRow>, p: Seq<usize>) -> bool {
    let k = row_with_indices(rows, p, 0);
    if k >= 0 {
        new.cursor == k && new.list_selected == Some(k as usize)
    } else {
        new.cursor == old.cursor && new.list_selected == old.list_selected
    }
}

/// Whether the treemap layout of `b` is dropped.
pub open spec fn layout_dropped(b: BrowsingState) -> bool {
    b.treemap_state.cached_rects@.len() == 0 && b.treemap_state.cached_visible@.len() == 0
}

fn same_indices(a: &[usize], b: &[usize]) -> (r: bool)
    ensures
        r == (a@ == b@),
{
    if a.len() != b.len() {
        return false;
    }
    let mut i: usize = 0;
    while i < a.len()
        invariant
            i <= a@.len() == b@.len(),
            forall|k: int| 0 <= k < i ==> a@[k] == b@[k],
        decreases a@.len() - i,
    {
        if a[i] != b[i] {
            return false;
        }
        i = i + 1;
    }
    proof {
        assert(a@ =~= b@);
    }
    true
}

fn find_row(rows: &Vec<FlatRow>, p: &[usize]) -> (r: Option<usize>)
    ensures
        match r {
            Some(k) => row_with_indices(rows@, p@, 0) == k,
            None => row_with_indices(rows@, p@, 0) == -1,
        },
{
    let mut i: usize = 0;
    while i < rows.len()
        invariant
            i <= rows@.len(),
            row_with_indices(rows@, p@, 0) == row_with_indices(rows@, p@, i as int),
        decreases rows@.len() - i,
    {
        if same_indices(rows[i].path_indices.as_slice(), p) {
            return Some(i);
        }
        i = i + 1;
    }
    None
}

impl App {
    /// Take in a message from the scanner: progress updates the counts while scanning;
    /// the finished tree starts browsing (its warnings becoming a notice, and the pending
    /// notices shown); an error stops the application with its message.
    pub fn scan_update(&mut self, update: ScanUpdate)
        requires
            app_ok(*old(self)),
        ensures
            app_ok(*final(self)),
            match update {
                ScanUpdate::Progress { files_found, bytes_found } => {
                    &&& match old(self).state {
                        AppState::Scanning { spinner_tick, .. } => scanning_with(
                            final(self).state,
                            files_found,
                            bytes_found,
                            spinner_tick,
                        ),
                        _ => final(self).state == old(self).state,
                    }
                    &&& final(self).overlay == old(self).overlay
                    &&& final(self).startup_notices == old(self).startup_notices
                    &&& same_settings(*final(self), *old(self))
                },
                ScanUpdate::Complete { root, warnings } => {
                    &&& final(self).state matches AppState::Browsing(b) && fresh_browsing(b, root)
                    &&& final(self).scan_warnings == warnings
                    &&& flushed(
                        texts(old(self).startup_notices@) + warning_notices(warnings),
                        old(self).overlay,
                        *final(self),
                    )
                    &&& final(self).view_mode == old(self).view_mode
                    &&& final(self).root_path == old(self).root_path
                    &&& final(self).use_trash == old(self).use_trash
                    &&& final(self).bookmarks@ == old(self).bookmarks@
                },
                ScanUpdate::Error(message) => {
                    &&& final(self).state matches AppState::Error(m) && m@ == message@
                    &&& final(self).overlay == old(self).overlay
                    &&& final(self).startup_notices == old(self).startup_notices
                    &&& same_settings(*final(self), *old(self))
                },
            },
    {
        match update {
            ScanUpdate::Progress { files_found, bytes_found } => {
                match &mut self.state {
                    AppState::Scanning { files_found: f, bytes_found: b, .. } => {
                        *f = files_found;
                        *b = bytes_found;
                    },
                    _ => {},
                }
            },
            ScanUpdate::Complete { root, warnings } => {
                self.scan_warnings = warnings;
                let ghost before = texts(self.startup_notices@);
                match self.scan_warnings.summary() {
                    Some(summary) => {
                        self.startup_notices.push(summary);
                    },
                    None => {},
                }
                proof {
                    assert(texts(self.startup_notices@) =~= before + warning_notices(warnings));
                }
                self.state = AppState::Browsing(BrowsingState::from_root(root));
                self.flush_notices();
            },
            ScanUpdate::Error(message) => {
                self.state = AppState::Error(message);
            },
        }
    }

    /// The scanner stopped without a result: while scanning, that is an error.
    pub fn scan_disconnected(&mut self)
        ensures
            old(self).state is Scanning ==> (final(self).state matches AppState::Error(m) && m@
                == "Scanner terminated unexpectedly"@),
            !(old(self).state is Scanning) ==> final(self).state == old(self).state,
            final(self).overlay == old(self).overlay,
            final(self).startup_notices == old(self).startup_notices,
            same_settings(*final(self), *old(self)),
    {
        if let AppState::Scanning { .. } = self.state {
            self.state = AppState::Error(String::from_str("Scanner terminated unexpectedly"));
        }
    }

    /// Switch to a bar or treemap view; the treemap lays itself out again.
    pub fn switch_to_nav_view(&mut self, mode: ViewMode)
        requires
            app_ok(*old(self)),
        ensures
            app_ok(*final(self)),
            view_switched(*old(self), mode, *final(self)),
    {
        if let AppState::Browsing(browsing) = &mut self.state {
            if mode == ViewMode::Treemap {
                browsing.treemap_state.invalidate();
            }
        }
        self.view_mode = mode;
    }

    /// Make `criteria` the active filter: the rows are flattened again, the tree cursor
    /// clamped to them, the views' selection made valid and the treemap laid out again.
    pub fn apply_filter(&mut self, criteria: Option<FilterCriteria>)
        requires
            app_ok(*old(self)),
            match criteria {
                Some(f) => crate::tui::filter::filter_ok(f),
                None => true,
            },
        ensures
            app_ok(*final(self)),
            filter_applied(*old(self), criteria, *final(self)),
    {
        if let AppState::Browsing(browsing) = &mut self.state {
            browsing.active_filter = criteria;
            let filter = browsing.active_filter.as_ref();
            let now = clock_for(filter);
            browsing.flat_rows = flatten_tree_filtered_at(&browsing.root, &browsing.tree_state.expanded, filter, now);
            browsing.tree_state.clamp_cursor(browsing.flat_rows.len());
            browsing.nav.ensure_valid_selection_at(&browsing.root, filter, now);
            browsing.treemap_state.invalidate();
        }
    }
}

/// `set` with the name paths `np[..1]`, ..., `np[..n-1]` added: the directories above
/// the entry at `np` when `n` is its length.
pub open spec fn add_prefixes(set: Set<Seq<Seq<char>>>, np: Seq<Seq<char>>, n: int) -> Set<
    Seq<Seq<char>>,
>
    decreases n,
{
    if n <= 1 {
        set
    } else {
        add_prefixes(set, np, n - 1).insert(np.subrange(0, n - 1))
    }
}

/// The view directory and selection that show the entry at name path `np`: its parent
/// directory with it selected (`m` when `np` is empty).
pub open spec fn nav_target(m: NavModel, np: Seq<Seq<char>>) -> NavModel {
    if np.len() > 1 {
        NavModel { dir: np.subrange(0, np.len() - 1), selected: np.last() }
    } else if np.len() == 1 {
        NavModel { dir: Seq::empty(), selected: np[0] }
    } else {
        m
    }
}

/// `nb` is `b` after showing the entry at index path `p` and name path `np` in every
/// view, with `expanded` the expanded set to flatten: the rows are flattened again,
/// the tree cursor goes to the entry's row (when shown), the bar and treemap views go to
/// its directory with it selected (made valid), and the treemap lays itself out again.
pub open spec fn shown_entry(
    b: BrowsingState,
    nb: BrowsingState,
    expanded: Set<Seq<Seq<char>>>,
    p: Seq<usize>,
    np: Seq<Seq<char>>,
) -> bool {
    &&& nb.root == b.root
    &&& nb.active_filter == b.active_filter
    &&& nb.sort_config == b.sort_config
    &&& nb.tree_state@.expanded == expanded
    &&& layout_dropped(nb)
    &&& exists|t: i128|
        clock_reading(filter_of(&b), t) && {
            &&& rows_view(nb.flat_rows@) == tree_rows(b.root, expanded, filter_of(&b), t as int)
            &&& cursor_on_path(b.tree_state@, nb.tree_state@, nb.flat_rows@, p)
            &&& nb.nav@ == ensure_valid_spec(nav_target(b.nav@, np), b.root, filter_of(&b), t as int)
            &&& nb.bar_state.selected == bar_row_spec(nb.nav@, b.root, filter_of(&b), t as int)
        }
}

impl BrowsingState {
    /// Show the entry at `path_indices` / `name_path` in every view; the expanded set
    /// has already been updated.
    fn show_entry(&mut self, path_indices: &[usize], name_path: &[String])
        requires
            browsing_ok(*old(self)),
        ensures
            browsing_ok(*final(self)),
            shown_entry(
                *old(self),
                *final(self),
                old(self).tree_state@.expanded,
                path_indices@,
                texts(name_path@),
            ),
    {
        let filter = self.active_filter.as_ref();
        let now = clock_for(filter);
        self.flat_rows = flatten_tree_filtered_at(&self.root, &self.tree_state.expanded, filter, now);
        match find_row(&self.flat_rows, path_indices) {
            Some(position) => {
                self.tree_state.cursor = position;
                self.tree_state.list_selected = Some(position);
            },
            None => {},
        }
        let n = name_path.len();
        let ghost np = texts(name_path@);
        if n > 1 {
            self.nav.view_dir_name_path = copy_names(&name_path[0..n - 1]);
            self.nav.selected_name = name_path[n - 1].clone();
            proof {
                assert(texts(name_path@.subrange(0, n - 1)) =~= np.subrange(0, n - 1));
            }
        } else if n == 1 {
            self.nav.view_dir_name_path = Vec::new();
            self.nav.selected_name = name_path[0].clone();
            proof {
                assert(texts(self.nav.view_dir_name_path@) =~= Seq::<Seq<char>>::empty());
            }
        }
        self.nav.ensure_valid_selection_at(&self.root, filter, now);
        sync_bar_list_selection_at(&self.nav, &self.root, &mut self.bar_state, filter, now);
        self.treemap_state.invalidate();
    }
}

impl App {
    /// Jump to a search result: the directories above it are expanded and every view
    /// shows it.
    pub fn jump_to_search_result(&mut self, path_indices: &[usize], name_path: &[String])
        requires
            app_ok(*old(self)),
        ensures
            app_ok(*final(self)),
            search_jumped(*old(self), path_indices@, texts(name_path@), *final(self)),
    {
        if let AppState::Browsing(browsing) = &mut self.state {
            let ghost np = texts(name_path@);
            let ghost start = browsing.tree_state@.expanded;
            let ghost b0 = *browsing;
            let mut i: usize = 1;
            while i < name_path.len()
                invariant
                    browsing.root == b0.root,
                    browsing.active_filter == b0.active_filter,
                    browsing.sort_config == b0.sort_config,
                    browsing.treemap_state == b0.treemap_state,
                    browsing.flat_rows == b0.flat_rows,
                    browsing.nav == b0.nav,
                    browsing.bar_state == b0.bar_state,
                    browsing.tree_state.cursor == b0.tree_state.cursor,
                    browsing.tree_state.list_selected == b0.tree_state.list_selected,
                    1 <= i,
                    i <= name_path@.len() || name_path@.len() == 0,
                    name_path@.len() == 0 ==> i == 1,
                    np == texts(name_path@),
                    browsing.tree_state.expanded@ == add_prefixes(start, np, i as int),
                decreases name_path@.len() - i,
            {
                let prefix = copy_names(&name_path[0..i]);
                proof {
                    assert(texts(name_path@.subrange(0, i as int)) =~= np.subrange(0, i as int));
                }
                browsing.tree_state.expanded.insert(prefix);
                i = i + 1;
            }
            proof {
                if name_path@.len() > 0 {
                    assert(i == name_path@.len());
                } else {
                    assert(add_prefixes(start, np, 0) == start);
                    assert(add_prefixes(start, np, 1) == start);
                    assert(browsing.tree_state.expanded@ == start);
                }
                assert(browsing.tree_state.expanded@ == add_prefixes(
                    start,
                    np,
                    name_path@.len() as int,
                ));
            }
            let ghost b_mid = *browsing;
            browsing.show_entry(path_indices, name_path);
            proof {
                assert(filter_of(&b_mid) == filter_of(&b0));
                assert(b_mid.nav@ == b0.nav@);
                assert(b_mid.root == b0.root);
                let ex = add_prefixes(start, np, name_path@.len() as int);
                assert(b_mid.tree_state@.expanded == ex);
                let t = choose|t: i128|
                    clock_reading(filter_of(&b_mid), t) && {
                        &&& rows_view(browsing.flat_rows@) == tree_rows(b_mid.root, ex, filter_of(&b_mid), t as int)
                        &&& cursor_on_path(b_mid.tree_state@, browsing.tree_state@, browsing.flat_rows@, path_indices@)
                        &&& browsing.nav@ == ensure_valid_spec(nav_target(b_mid.nav@, np), b_mid.root, filter_of(&b_mid), t as int)
                        &&& browsing.bar_state.selected == bar_row_spec(browsing.nav@, b_mid.root, filter_of(&b_mid), t as int)
                    };
                assert(cursor_on_path(b0.tree_state@, browsing.tree_state@, browsing.flat_rows@, path_indices@));
                assert(shown_entry(b0, *browsing, ex, path_indices@, np));
            }
        }
    }
}

/// `set` with the name paths `np[..1]`, ..., `np[..n]` added for those that lead from
/// `root` to a directory with children.
pub open spec fn opened_upto(set: Set<Seq<Seq<char>>>, root: DiskNode, np: Seq<Seq<char>>, n: int) -> Set<
    Seq<Seq<char>>,
>
    decreases n,
{
    if n <= 0 {
        set
    } else {
        let s = opened_upto(set, root, np, n - 1);
        match node_by_names(root, np.subrange(0, n)) {
            Some(d) => if d.node_type == NodeType::Dir && d.children@.len() > 0 {
                s.insert(np.subrange(0, n))
            } else {
                s
            },
            None => s,
        }
    }
}

/// `nb` is `b` after jumping to the scan root: the tree cursor on the first row (none
/// highlighted when there are no rows), the other views at the root with their selection
/// made valid, and the treemap laid out again.
pub open spec fn at_scan_root(b: BrowsingState, nb: BrowsingState) -> bool {
    &&& nb.root == b.root
    &&& nb.active_filter == b.active_filter
    &&& nb.sort_config == b.sort_config
    &&& nb.flat_rows == b.flat_rows
    &&& nb.tree_state@ == TreeModel {
        cursor: 0,
        expanded: b.tree_state@.expanded,
        list_selected: if b.flat_rows@.len() > 0 {
            Some(0usize)
        } else {
            None
        },
    }
    &&& layout_dropped(nb)
    &&& exists|t: i128|
        clock_reading(filter_of(&b), t) && {
            &&& nb.nav@ == ensure_valid_spec(
                NavModel { dir: Seq::empty(), selected: b.nav@.selected },
                b.root,
                filter_of(&b),
                t as int,
            )
            &&& nb.bar_state.selected == bar_row_spec(nb.nav@, b.root, filter_of(&b), t as int)
        }
}

/// What jumping to the bookmark at `path` does to `b`, the rest of the path below the
/// scan root being `rel`: for the root itself, go there; for an entry found by following
/// the path's components, expand the directories down to it and show it; for anything
/// else, nothing.
pub open spec fn bookmark_jump(b: BrowsingState, nb: BrowsingState, rel: Seq<char>) -> bool {
    if rel.len() == 0 {
        at_scan_root(b, nb)
    } else {
        let comps = path_components(rel);
        match walk_names(b.root, comps) {
            Some((idx, _)) => if comps.len() > 0 {
                shown_entry(
                    b,
                    nb,
                    opened_upto(b.tree_state@.expanded, b.root, comps, comps.len() as int),
                    idx,
                    comps,
                )
            } else {
                nb == b
            },
            None => nb == b,
        }
    }
}

impl BrowsingState {
    fn go_to_scan_root(&mut self)
        requires
            browsing_ok(*old(self)),
        ensures
            browsing_ok(*final(self)),
            at_scan_root(*old(self), *final(self)),
    {
        self.tree_state.cursor = 0;
        self.tree_state.list_selected = if self.flat_rows.len() > 0 {
            Some(0)
        } else {
            None
        };
        self.nav.view_dir_name_path = Vec::new();
        proof {
            assert(texts(self.nav.view_dir_name_path@) =~= Seq::<Seq<char>>::empty());
        }
        let filter = self.active_filter.as_ref();
        let now = clock_for(filter);
        self.nav.ensure_valid_selection_at(&self.root, filter, now);
        sync_bar_list_selection_at(&self.nav, &self.root, &mut self.bar_state, filter, now);
        self.treemap_state.invalidate();
        proof {
            assert(self.tree_state@ =~= TreeModel {
                cursor: 0,
                expanded: old(self).tree_state@.expanded,
                list_selected: if old(self).flat_rows@.len() > 0 {
                    Some(0usize)
                } else {
                    None
                },
            });
        }
    }

    /// Expand the directories on the way to the entry at name path `comps`, which the
    /// walk from the root reaches.
    fn open_along(&mut self, comps: &Vec<String>)
        requires
            walk_names(old(self).root, texts(comps@)) is Some,
        ensures
            final(self).tree_state@.expanded == opened_upto(
                old(self).tree_state@.expanded,
                old(self).root,
                texts(comps@),
                comps@.len() as int,
            ),
            final(self).root == old(self).root,
            final(self).active_filter == old(self).active_filter,
            final(self).sort_config == old(self).sort_config,
            final(self).treemap_state == old(self).treemap_state,
            final(self).flat_rows == old(self).flat_rows,
            final(self).nav == old(self).nav,
            final(self).bar_state == old(self).bar_state,
            final(self).tree_state.cursor == old(self).tree_state.cursor,
            final(self).tree_state.list_selected == old(self).tree_state.list_selected,
    {
        let ghost np = texts(comps@);
        let ghost start = self.tree_state@.expanded;
        let ghost b0 = *self;
        let root = &self.root;
        let expanded = &mut self.tree_state.expanded;
        let mut node = root;
        let mut j: usize = 0;
        proof {
            assert(np.subrange(0, 0) =~= Seq::<Seq<char>>::empty());
        }
        while j < comps.len()
            invariant
                j <= comps@.len(),
                np == texts(comps@),
                *root == b0.root,
                walk_names(*root, np) is Some,
                node_by_names(*root, np.subrange(0, j as int)) == Some(*node),
                expanded@ == opened_upto(start, *root, np, j as int),
            decreases comps@.len() - j,
        {
            proof {
                lemma_walk_prefix(*root, np, j as int + 1);
                assert(np.subrange(0, j as int + 1) =~= np.subrange(0, j as int).push(np[j as int]));
                lemma_walk_push(*root, np.subrange(0, j as int), np[j as int]);
            }
            let k = position_of_name(node.children.as_slice(), comps[j].as_str());
            proof {
                lemma_first_named_from(node.children@, np[j as int], 0);
            }
            let k = k.unwrap();
            node = &node.children[k];
            if node.node_type == NodeType::Dir && node.children.len() > 0 {
                let prefix = copy_names(&comps.as_slice()[0..j + 1]);
                proof {
                    assert(texts(comps@.subrange(0, j as int + 1)) =~= np.subrange(0, j as int + 1));
                }
                expanded.insert(prefix);
            }
            j = j + 1;
        }
    }
}

impl App {
    /// Jump to the bookmarked directory `path`: to the scan root itself, or, found by its
    /// components below the root, to its entry in every view. A path outside the scan
    /// gets a flash message saying a new scan is needed.
    pub fn jump_to_bookmark(&mut self, path: &str)
        requires
            app_ok(*old(self)),
        ensures
            app_ok(*final(self)),
            bookmark_jumped(*old(self), path@, *final(self)),
    {
        match strip_path_prefix(path, self.root_path.as_str()) {
            None => {
                self.overlay = Some(
                    Overlay::Flash {
                        message: String::from_str("Bookmark outside current scan — rescan needed"),
                    },
                );
            },
            Some(rel) => {
                if let AppState::Browsing(browsing) = &mut self.state {
                    if char_count(rel.as_str()) == 0 {
                        browsing.go_to_scan_root();
                        return;
                    }
                    let comps = components_of(rel.as_str());
                    let found = walk_name_path(&browsing.root, comps.as_slice());
                    match found {
                        Some((path_indices, _)) => {
                            if comps.len() > 0 {
                                let ghost b0 = *browsing;
                                browsing.open_along(&comps);
                                let ghost b_mid = *browsing;
                                browsing.show_entry(path_indices.as_slice(), comps.as_slice());
                                proof {
                                    let np = texts(comps@);
                                    let ex = b_mid.tree_state@.expanded;
                                    assert(filter_of(&b_mid) == filter_of(&b0));
                                    let t = choose|t: i128|
                                        clock_reading(filter_of(&b_mid), t) && {
                                            &&& rows_view(browsing.flat_rows@) == tree_rows(
                                                b_mid.root,
                                                ex,
                                                filter_of(&b_mid),
                                                t as int,
                                            )
                                            &&& cursor_on_path(
                                                b_mid.tree_state@,
                                                browsing.tree_state@,
                                                browsing.flat_rows@,
                                                path_indices@,
                                            )
                                            &&& browsing.nav@ == ensure_valid_spec(
                                                nav_target(b_mid.nav@, np),
                                                b_mid.root,
                                                filter_of(&b_mid),
                                                t as int,
                                            )
                                            &&& browsing.bar_state.selected == bar_row_spec(
                                                browsing.nav@,
                                                b_mid.root,
                                                filter_of(&b_mid),
                                                t as int,
                                            )
                                        };
                                    assert(cursor_on_path(
                                        b0.tree_state@,
                                        browsing.tree_state@,
                                        browsing.flat_rows@,
                                        path_indices@,
                                    ));
                                    assert(shown_entry(b0, *browsing, ex, path_indices@, np));
                                }
                            }
                        },
                        None => {},
                    }
                }
            },
        }
    }
}

/// The index path of the node selected in view `mode`: the tree cursor's row, or the
/// bar and treemap views' selection.
pub open spec fn selected_path_spec(mode: ViewMode, b: BrowsingState) -> Option<Seq<usize>> {
    match mode {
        ViewMode::Tree => if b.tree_state.cursor < b.flat_rows@.len() {
            Some(b.flat_rows@[b.tree_state.cursor as int].path_indices@)
        } else {
            None
        },
        _ => named_selection_path(b.root, b.nav@.dir, b.nav@.selected),
    }
}

/// Get the path_indices of the currently selected node.
pub fn selected_path_from_state(view_mode: ViewMode, browsing: &BrowsingState) -> (r: Option<Vec<usize>>)
    ensures
        match selected_path_spec(view_mode, *browsing) {
            Some(p) => r matches Some(v) && v@ == p,
            None => r is None,
        },
{
    match view_mode {
        ViewMode::Tree => {
            if browsing.tree_state.cursor < browsing.flat_rows.len() {
                Some(copy_indices(browsing.flat_rows[browsing.tree_state.cursor].path_indices.as_slice()))
            } else {
                None
            }
        },
        _ => browsing.nav.path_indices(&browsing.root),
    }
}

/// Copies of the bookmarks `src`, with the same paths and labels.
fn copy_bookmarks(src: &Vec<Bookmark>) -> (r: Vec<Bookmark>)
    ensures
        r@.map_values(|b: Bookmark| bookmark_view(b)) == src@.map_values(|b: Bookmark| bookmark_view(b)),
        r@.len() == src@.len(),
{
    let mut r: Vec<Bookmark> = Vec::new();
    let mut i: usize = 0;
    while i < src.len()
        invariant
            i <= src@.len(),
            r@.len() == i,
            forall|k: int| 0 <= k < i ==> bookmark_view(#[trigger] r@[k]) == bookmark_view(src@[k]),
        decreases src@.len() - i,
    {
        r.push(Bookmark { path: src[i].path.clone(), label: src[i].label.clone() });
        i = i + 1;
    }
    proof {
        assert(r@.map_values(|b: Bookmark| bookmark_view(b)) =~= src@.map_values(
            |b: Bookmark| bookmark_view(b),
        ));
    }
    r
}

/// Whether `o` is the bookmark list showing the bookmarks `bs`, with `selected` chosen
/// and highlighted.
pub open spec fn bookmark_list_of(o: Overlay, bs: Seq<(Seq<char>, Seq<char>)>, selected: int) -> bool {
    o matches Overlay::BookmarkList { bookmarks, selected: s, list_selected } && bookmarks@.map_values(
        |b: Bookmark| bookmark_view(b),
    ) == bs && s == selected && list_selected == Some(s)
}

impl App {
    /// Run the search for the query typed in the search overlay.
    pub fn update_search_results(&mut self)
        requires
            app_ok(*old(self)),
        ensures
            app_ok(*final(self)),
            searched(*old(self), *final(self)),
    {
        if let Some(Overlay::Search { input, all_entries, results, selected, list_selected }) = &mut self.overlay {
            *results = search_entries(all_entries, input.query.as_str());
            *selected = 0;
            *list_selected = if results.len() == 0 {
                None
            } else {
                Some(0)
            };
        }
    }

    /// The bookmarks were written out (or writing failed) after a bookmark was added
    /// (`added`) or removed. After an addition a flash message tells the outcome; after
    /// a removal that failed to save too; after one that saved, the list closes when it
    /// is empty and otherwise shows the bookmarks left, its selection kept within them.
    pub fn bookmarks_saved(&mut self, added: bool, outcome: Result<(), String>)
        ensures
            added ==> match outcome {
                Ok(()) => final(self).overlay matches Some(Overlay::Flash { message }) && message@
                    == "Bookmarked!"@,
                Err(e) => final(self).overlay matches Some(Overlay::Flash { message }) && message@
                    == "Bookmarked in memory, but save failed: "@ + e@,
            },
            !added ==> match outcome {
                Err(e) => final(self).overlay matches Some(Overlay::Flash { message }) && message@
                    == "Bookmark removed, but save failed: "@ + e@,
                Ok(()) => if old(self).bookmarks@.len() == 0 {
                    final(self).overlay is None
                } else {
                    match old(self).overlay {
                        Some(Overlay::BookmarkList { selected, .. }) => bookmark_list_of(
                            final(self).overlay->0,
                            old(self).bookmarks@,
                            if selected >= old(self).bookmarks@.len() {
                                old(self).bookmarks@.len() - 1
                            } else {
                                selected as int
                            },
                        ) && final(self).overlay is Some,
                        _ => final(self).overlay == old(self).overlay,
                    }
                },
            },
            final(self).state == old(self).state,
            final(self).startup_notices == old(self).startup_notices,
            same_settings(*final(self), *old(self)),
    {
        if added {
            let message = match outcome {
                Ok(()) => String::from_str("Bookmarked!"),
                Err(e) => {
                    let mut m = String::from_str("Bookmarked in memory, but save failed: ");
                    m.append(e.as_str());
                    m
                },
            };
            self.overlay = Some(Overlay::Flash { message });
            return;
        }
        match outcome {
            Err(e) => {
                let mut m = String::from_str("Bookmark removed, but save failed: ");
                m.append(e.as_str());
                self.overlay = Some(Overlay::Flash { message: m });
            },
            Ok(()) => {
                let len = self.bookmarks.len();
                if len == 0 {
                    self.overlay = None;
                } else if let Some(Overlay::BookmarkList { bookmarks, selected, list_selected }) = &mut self.overlay {
                    *bookmarks = copy_bookmarks(&self.bookmarks.bookmarks);
                    if *selected >= len {
                        *selected = len - 1;
                    }
                    *list_selected = Some(*selected);
                }
            },
        }
    }

    /// The file information for the entry named `node_name` was read (or reading
    /// failed): show it in the info popup, or say why it could not be read.
    pub fn info_loaded(&mut self, node_name: &str, outcome: Result<FileMetadata, String>)
        ensures
            match outcome {
                Ok(m) => final(self).overlay matches Some(Overlay::FileInfo { lines }) && texts(lines@)
                    == metadata_lines(m, node_name@),
                Err(e) => final(self).overlay matches Some(Overlay::Flash { message }) && message@
                    == "Cannot read info: "@ + e@,
            },
            final(self).state == old(self).state,
            final(self).startup_notices == old(self).startup_notices,
            same_settings(*final(self), *old(self)),
    {
        match outcome {
            Ok(metadata) => {
                self.overlay = Some(Overlay::FileInfo { lines: metadata.to_lines(node_name) });
            },
            Err(e) => {
                let mut m = String::from_str("Cannot read info: ");
                m.append(e.as_str());
                self.overlay = Some(Overlay::Flash { message: m });
            },
        }
    }

    /// The entry at `path_indices` was deleted from disk (or deleting failed). On success
    /// it leaves the tree, the rows are flattened again, the tree cursor is clamped to
    /// them, the views' selection is made valid and the treemap lays itself out again;
    /// on failure a flash message says why.
    pub fn delete_finished(&mut self, path_indices: &[usize], outcome: Result<(), String>)
        requires
            app_ok(*old(self)),
        ensures
            app_ok(*final(self)),
            match outcome {
                Err(e) => {
                    &&& final(self).overlay matches Some(Overlay::Flash { message }) && message@
                        == "Delete failed: "@ + e@
                    &&& final(self).state == old(self).state
                },
                Ok(()) => {
                    &&& final(self).overlay == old(self).overlay
                    &&& match old(self).state {
                        AppState::Browsing(b) => final(self).state matches AppState::Browsing(nb)
                            && deleted_from(b, nb, path_indices@),
                        _ => final(self).state == old(self).state,
                    }
                },
            },
            final(self).startup_notices == old(self).startup_notices,
            same_settings(*final(self), *old(self)),
    {
        match outcome {
            Ok(()) => {
                if let AppState::Browsing(browsing) = &mut self.state {
                    let _removed = browsing.root.remove_node(path_indices);
                    let filter = browsing.active_filter.as_ref();
                    let now = clock_for(filter);
                    browsing.flat_rows = flatten_tree_filtered_at(
                        &browsing.root,
                        &browsing.tree_state.expanded,
                        filter,
                        now,
                    );
                    browsing.tree_state.clamp_cursor(browsing.flat_rows.len());
                    browsing.nav.ensure_valid_selection_at(&browsing.root, filter, now);
                    sync_bar_list_selection_at(&browsing.nav, &browsing.root, &mut browsing.bar_state, filter, now);
                    browsing.treemap_state.invalidate();
                }
            },
            Err(e) => {
                let mut m = String::from_str("Delete failed: ");
                m.append(e.as_str());
                self.overlay = Some(Overlay::Flash { message: m });
            },
        }
    }
}

/// `nb` is `b` after the entry at `p` was deleted from disk: the tree without it (when
/// `p` names an entry; else unchanged), the rows flattened again, the cursor clamped,
/// the views' selection made valid and the treemap laid out again.
pub open spec fn deleted_from(b: BrowsingState, nb: BrowsingState, p: Seq<usize>) -> bool {
    &&& (if p.len() > 0 && node_at(b.root, p) is Some {
        removed_from(nb.root, b.root, p, node_at(b.root, p)->0.size)
    } else {
        nb.root == b.root
    })
    &&& nb.active_filter == b.active_filter
    &&& nb.sort_config == b.sort_config
    &&& layout_dropped(nb)
    &&& exists|t: i128|
        clock_reading(filter_of(&b), t) && {
            &&& rows_view(nb.flat_rows@) == tree_rows(nb.root, b.tree_state@.expanded, filter_of(&b), t as int)
            &&& nb.tree_state@ == clamp_spec(b.tree_state@, nb.flat_rows@.len() as int)
            &&& nb.nav@ == ensure_valid_spec(b.nav@, nb.root, filter_of(&b), t as int)
            &&& nb.bar_state.selected == bar_row_spec(nb.nav@, nb.root, filter_of(&b), t as int)
        }
}

// ---------------------------------------------------------------------------
// Keys
// ---------------------------------------------------------------------------

/// What the application asks of its surroundings after a key.
pub enum KeyOutcome {
    /// Nothing more: keep going.
    Continue,
    /// Leave the application.
    Quit,
    /// Write the bookmarks out, then report with `bookmarks_saved(added, ..)`.
    SaveBookmarks { added: bool },
    /// Read the file information at `fs_path`, then report with
    /// `info_loaded(node_name, ..)`.
    LoadInfo { fs_path: String, node_name: String },
    /// Delete `fs_path` (to the trash when `use_trash`), then report with
    /// `delete_finished(path_indices, ..)`.
    Delete { path_indices: Vec<usize>, fs_path: String, is_dir: bool, use_trash: bool },
}

/// `a` with its overlay replaced by `o`.
pub open spec fn with_overlay(a: App, o: Option<Overlay>) -> App {
    App { overlay: o, ..a }
}

/// What carrying out the overlay action `act` does to `old` (whose overlay is already the
/// one after the key), giving `new` and the outcome `out`.
pub open spec fn action_effect(old: App, act: OverlayAction, new: App, out: KeyOutcome) -> bool {
    let closed = with_overlay(old, None);
    match act {
        OverlayAction::Consumed => new == old && out is Continue,
        OverlayAction::Close => new == closed && out is Continue,
        OverlayAction::ConfirmDelete { path_indices, fs_path, is_dir } => {
            &&& new == closed
            &&& out matches KeyOutcome::Delete { path_indices: p, fs_path: f, is_dir: d, use_trash: u }
            &&& p@ == path_indices@ && f@ == fs_path@ && d == is_dir && u == old.use_trash
        },
        OverlayAction::BookmarkJump(path) => bookmark_jumped(closed, path@, new) && out is Continue,
        OverlayAction::BookmarkRemove(i) => {
            &&& new.bookmarks@ == if i < old.bookmarks@.len() {
                old.bookmarks@.remove(i as int)
            } else {
                old.bookmarks@
            }
            &&& new.state == old.state
            &&& new.overlay == old.overlay
            &&& new.startup_notices == old.startup_notices
            &&& new.view_mode == old.view_mode
            &&& new.root_path == old.root_path
            &&& new.use_trash == old.use_trash
            &&& new.scan_warnings == old.scan_warnings
            &&& out matches KeyOutcome::SaveBookmarks { added } && !added
        },
        OverlayAction::SearchUpdate => searched(old, new) && out is Continue,
        OverlayAction::SearchJump { path_indices, name_path } => search_jumped(
            closed,
            path_indices@,
            texts(name_path@),
            new,
        ) && out is Continue,
        OverlayAction::ApplyFilter(c) => filter_applied(closed, Some(c), new) && out is Continue,
        OverlayAction::ClearFilter => filter_applied(closed, None, new) && out is Continue,
        OverlayAction::SwitchToExtFilter => {
            &&& new.overlay matches Some(Overlay::FilterExtInput { input }) && input.query@.len() == 0
                && input.cursor == 0
            &&& new == with_overlay(old, new.overlay)
            &&& out is Continue
        },
    }
}

/// The directory that `b` bookmarks in view `mode` (below `root_path`): in the tree view
/// the cursor's directory, or for a file the directory holding it; in the other views the
/// viewed directory.
pub open spec fn bookmark_dir(mode: ViewMode, b: BrowsingState, root_path: Seq<char>) -> Option<Seq<char>> {
    match mode {
        ViewMode::Tree => if b.tree_state.cursor < b.flat_rows@.len() {
            let p = b.flat_rows@[b.tree_state.cursor as int].path_indices@;
            match node_at(b.root, p) {
                Some(n) => if n.node_type == NodeType::Dir {
                    Some(join_all(root_path, names_on_path(b.root, p)))
                } else if p.len() > 1 {
                    match node_at(b.root, p.drop_last()) {
                        Some(_) => Some(join_all(root_path, names_on_path(b.root, p.drop_last()))),
                        None => None,
                    }
                } else {
                    Some(root_path)
                },
                None => None,
            }
        } else {
            None
        },
        _ => match node_by_names(b.root, b.nav@.dir) {
            Some(_) => Some(join_all(root_path, b.nav@.dir)),
            None => None,
        },
    }
}

/// The label a bookmark of `path` gets: its last component, else the whole path.
/// `nb` is `b` with the children of every node put in the order `cfg` gives, which
/// becomes the sort configuration: the rows are flattened again, the bar's highlighted
/// row follows the selection, the treemap lays itself out again; the cursor, the expanded
/// directories and the selection stay.
pub open spec fn resorted(b: BrowsingState, nb: BrowsingState, cfg: SortConfig) -> bool {
    &&& nb.sort_config == cfg
    &&& sorted_by(nb.root, b.root, cfg)
    &&& nb.active_filter == b.active_filter
    &&& nb.tree_state == b.tree_state
    &&& nb.nav == b.nav
    &&& layout_dropped(nb)
    &&& exists|t: i128|
        clock_reading(filter_of(&b), t) && {
            &&& rows_view(nb.flat_rows@) == tree_rows(
                nb.root,
                b.tree_state@.expanded,
                filter_of(&b),
                t as int,
            )
            &&& nb.bar_state.selected == bar_row_spec(b.nav@, nb.root, filter_of(&b), t as int)
        }
}

impl BrowsingState {
    /// Order the tree under `config` and bring the views up to date with it.
    fn resort(&mut self, config: SortConfig)
        requires
            browsing_ok(*old(self)),
        ensures
            browsing_ok(*final(self)),
            resorted(*old(self), *final(self), config),
    {
        self.sort_config = config;
        self.root.sort_children(&config);
        let filter = self.active_filter.as_ref();
        let now = clock_for(filter);
        self.flat_rows = flatten_tree_filtered_at(&self.root, &self.tree_state.expanded, filter, now);
        self.treemap_state.invalidate();
        sync_bar_list_selection_at(&self.nav, &self.root, &mut self.bar_state, filter, now);
    }
}

pub open spec fn bookmark_label(path: Seq<char>) -> Seq<char> {
    match path_file_name(path) {
        Some(l) => l,
        None => path,
    }
}

/// What a key does while browsing without an overlay (`old` in state `b`), giving `new`
/// and the outcome `out`.
pub open spec fn browse_key_effect(old: App, b: BrowsingState, key: KeyPress, new: App, out: KeyOutcome) -> bool {
    let k = key.code;
    let root = b.root;
    let sort = b.sort_config;
    if is_char(k, '1') {
        new == App { view_mode: ViewMode::Tree, ..old } && out is Continue
    } else if is_char(k, '2') {
        view_switched(old, ViewMode::Treemap, new) && out is Continue
    } else if is_char(k, '3') {
        view_switched(old, ViewMode::Bar, new) && out is Continue
    } else if is_char(k, 's') {
        &&& out is Continue
        &&& new.overlay == old.overlay
        &&& new.startup_notices == old.startup_notices
        &&& same_settings(new, old)
        &&& new.state matches AppState::Browsing(nb) && resorted(
            b,
            nb,
            if key.shift {
                SortConfig { field: sort.field, ascending: !sort.ascending }
            } else {
                SortConfig { field: next_field(sort.field), ascending: sort.ascending }
            },
        )
    } else if is_char(k, 'i') {
        &&& new == old
        &&& match selected_path_spec(old.view_mode, b) {
            Some(p) => match node_at(root, p) {
                Some(n) => out matches KeyOutcome::LoadInfo { fs_path, node_name } && fs_path@
                    == join_all(old.root_path@, names_on_path(root, p)) && node_name@ == n.name@,
                None => out is Continue,
            },
            None => out is Continue,
        }
    } else if is_char(k, 'd') {
        &&& out is Continue
        &&& match selected_path_spec(old.view_mode, b) {
            Some(p) => match node_at(root, p) {
                Some(n) => {
                    &&& new == with_overlay(old, new.overlay)
                    &&& new.overlay matches Some(
                        Overlay::DeleteConfirm { node_name, path_indices, fs_path, is_dir, size },
                    ) && node_name@ == n.name@ && path_indices@ == p && fs_path@ == join_all(
                        old.root_path@,
                        names_on_path(root, p),
                    ) && is_dir == (n.node_type == NodeType::Dir) && size == n.size
                },
                None => new == old,
            },
            None => new == old,
        }
    } else if is_char(k, '/') {
        &&& out is Continue
        &&& new == with_overlay(old, new.overlay)
        &&& new.overlay matches Some(
            Overlay::Search { input, all_entries, results, selected, list_selected },
        ) && input.query@.len() == 0 && input.cursor == 0 && entry_views(all_entries@)
            == entries_from(root.children@, 0, Seq::empty(), Seq::empty()) && results@.len() == 0
            && selected == 0 && list_selected is None
    } else if is_char(k, 'f') && !key.shift {
        new == with_overlay(old, Some(Overlay::FilterMenu)) && out is Continue
    } else if is_char(k, 'b') && key.shift {
        &&& out is Continue
        &&& new == with_overlay(old, new.overlay)
        &&& new.overlay matches Some(Overlay::BookmarkList { bookmarks, selected, list_selected })
            && bookmarks@.map_values(|x: Bookmark| bookmark_view(x)) == old.bookmarks@ && selected
            == 0 && list_selected == (if old.bookmarks@.len() > 0 {
            Some(0usize)
        } else {
            None
        })
    } else if is_char(k, 'b') {
        match bookmark_dir(old.view_mode, b, old.root_path@) {
            Some(dir) => if has_path(old.bookmarks@, dir) {
                &&& new.state == old.state
                &&& new.startup_notices == old.startup_notices
                &&& same_settings(new, old)
                &&& new.overlay matches Some(Overlay::Flash { message }) && message@
                    == "Already bookmarked"@
                &&& out is Continue
            } else {
                &&& new.bookmarks@ == old.bookmarks@.push((dir, bookmark_label(dir)))
                &&& new.state == old.state
                &&& new.overlay == old.overlay
                &&& new.startup_notices == old.startup_notices
                &&& new.view_mode == old.view_mode
                &&& new.root_path == old.root_path
                &&& new.use_trash == old.use_trash
                &&& new.scan_warnings == old.scan_warnings
                &&& out matches KeyOutcome::SaveBookmarks { added } && added
            },
            None => new == old && out is Continue,
        }
    } else {
        &&& out is Continue
        &&& new.overlay == old.overlay
        &&& new.startup_notices == old.startup_notices
        &&& same_settings(new, old)
        &&& new.state matches AppState::Browsing(nb) && nb.root == b.root && nb.active_filter
            == b.active_filter && nb.sort_config == b.sort_config && (exists|t: i128|
            clock_reading(filter_of(&b), t) && match old.view_mode {
                ViewMode::Tree => {
                    &&& tree_key_step(
                        k,
                        root,
                        filter_of(&b),
                        t as int,
                        b.tree_state@,
                        b.flat_rows@,
                        nb.tree_state@,
                        nb.flat_rows@,
                    )
                    &&& nb.nav == b.nav
                    &&& nb.bar_state == b.bar_state
                    &&& nb.treemap_state == b.treemap_state
                },
                ViewMode::Bar => {
                    &&& nb.nav@ == nav_key_step(k, root, filter_of(&b), t as int, b.nav@)
                    &&& nb.bar_state.selected == bar_row_spec(nb.nav@, root, filter_of(&b), t as int)
                    &&& nb.tree_state == b.tree_state
                    &&& nb.flat_rows == b.flat_rows
                    &&& nb.treemap_state == b.treemap_state
                },
                ViewMode::Treemap => {
                    &&& treemap_key_step(
                        k,
                        root,
                        filter_of(&b),
                        t as int,
                        b.nav@,
                        b.treemap_state,
                        nb.nav@,
                        nb.treemap_state,
                    )
                    &&& nb.tree_state == b.tree_state
                    &&& nb.flat_rows == b.flat_rows
                    &&& nb.bar_state == b.bar_state
                },
            })
    }
}

/// What a key does to `old`, giving `new` and the outcome `out`. With an overlay open,
/// the overlay takes the key and its action is carried out. Otherwise `q` and Esc quit;
/// while browsing, the other keys act as `browse_key_effect` says; before that, they do
/// nothing.
pub open spec fn key_effect(old: App, key: KeyPress, new: App, out: KeyOutcome) -> bool {
    match old.overlay {
        Some(o) => exists|o2: Overlay, act: OverlayAction|
            overlay_step(o, key.code, o2, act) && action_effect(
                with_overlay(old, Some(o2)),
                act,
                new,
                out,
            ),
        None => if is_char(key.code, 'q') || key.code == KeyCode::Esc {
            new == old && out is Quit
        } else {
            match old.state {
                AppState::Browsing(b) => browse_key_effect(old, b, key, new, out),
                _ => new == old && out is Continue,
            }
        },
    }
}

impl App {
    /// Carry out what the overlay asked for with `action`.
    pub fn handle_overlay_action(&mut self, action: OverlayAction) -> (out: KeyOutcome)
        requires
            app_ok(*old(self)),
            action_ok(action),
        ensures
            app_ok(*final(self)),
            action_effect(*old(self), action, *final(self), out),
    {
        match action {
            OverlayAction::Consumed => KeyOutcome::Continue,
            OverlayAction::Close => {
                self.overlay = None;
                KeyOutcome::Continue
            },
            OverlayAction::ConfirmDelete { path_indices, fs_path, is_dir } => {
                self.overlay = None;
                KeyOutcome::Delete { path_indices, fs_path, is_dir, use_trash: self.use_trash }
            },
            OverlayAction::BookmarkJump(path) => {
                self.overlay = None;
                self.jump_to_bookmark(path.as_str());
                KeyOutcome::Continue
            },
            OverlayAction::BookmarkRemove(index) => {
                self.bookmarks.remove(index);
                KeyOutcome::SaveBookmarks { added: false }
            },
            OverlayAction::SearchUpdate => {
                self.update_search_results();
                KeyOutcome::Continue
            },
            OverlayAction::SearchJump { path_indices, name_path } => {
                self.overlay = None;
                self.jump_to_search_result(path_indices.as_slice(), name_path.as_slice());
                KeyOutcome::Continue
            },
            OverlayAction::ApplyFilter(criteria) => {
                self.overlay = None;
                self.apply_filter(Some(criteria));
                KeyOutcome::Continue
            },
            OverlayAction::ClearFilter => {
                self.overlay = None;
                self.apply_filter(None);
                KeyOutcome::Continue
            },
            OverlayAction::SwitchToExtFilter => {
                self.overlay = Some(Overlay::FilterExtInput { input: TextInputState::new() });
                KeyOutcome::Continue
            },
        }
    }
}

impl App {
    /// The directory to bookmark while browsing in view `mode`.
    fn bookmark_dir_path(mode: ViewMode, browsing: &BrowsingState, root_path: &str) -> (r: Option<String>)
        ensures
            match bookmark_dir(mode, *browsing, root_path@) {
                Some(d) => r matches Some(s) && s@ == d,
                None => r is None,
            },
    {
        match mode {
            ViewMode::Tree => {
                if browsing.tree_state.cursor >= browsing.flat_rows.len() {
                    return None;
                }
                let p = browsing.flat_rows[browsing.tree_state.cursor].path_indices.as_slice();
                match resolve_node(&browsing.root, p) {
                    Some(node) => {
                        if node.node_type == NodeType::Dir {
                            resolve_fs_path(root_path, &browsing.root, p)
                        } else if p.len() > 1 {
                            let parent = &p[0..p.len() - 1];
                            proof {
                                assert(parent@ =~= p@.drop_last());
                            }
                            resolve_fs_path(root_path, &browsing.root, parent)
                        } else {
                            Some(String::from_str(root_path))
                        }
                    },
                    None => None,
                }
            },
            _ => resolve_fs_path_by_name_path(
                root_path,
                &browsing.root,
                browsing.nav.view_dir_name_path.as_slice(),
            ),
        }
    }

    /// Handle a key while browsing with no overlay open, other than the view switches.
    fn handle_browse_key(&mut self, key: KeyPress) -> (out: KeyOutcome)
        requires
            app_ok(*old(self)),
            old(self).overlay is None,
            old(self).state is Browsing,
            !is_char(key.code, '1'),
            !is_char(key.code, '2'),
            !is_char(key.code, '3'),
        ensures
            app_ok(*final(self)),
            match old(self).state {
                AppState::Browsing(b) => browse_key_effect(*old(self), b, key, *final(self), out),
                _ => true,
            },
    {
        let k = key.code;
        let mode = self.view_mode;
        match &mut self.state {
            AppState::Browsing(browsing) => {
                if k == KeyCode::Char('s') {
                    let current = browsing.sort_config;
                    let config = if key.shift {
                        SortConfig { field: current.field, ascending: !current.ascending }
                    } else {
                        SortConfig { field: current.field.next(), ascending: current.ascending }
                    };
                    browsing.resort(config);
                    return KeyOutcome::Continue;
                }
                if k == KeyCode::Char('i') {
                    match selected_path_from_state(mode, browsing) {
                        Some(p) => match resolve_fs_path(self.root_path.as_str(), &browsing.root, p.as_slice()) {
                            Some(fs_path) => {
                                let node_name = match resolve_node(&browsing.root, p.as_slice()) {
                                    Some(n) => n.name.clone(),
                                    None => String::new(),
                                };
                                return KeyOutcome::LoadInfo { fs_path, node_name };
                            },
                            None => {
                                return KeyOutcome::Continue;
                            },
                        },
                        None => {
                            return KeyOutcome::Continue;
                        },
                    }
                }
                if k == KeyCode::Char('d') {
                    match selected_path_from_state(mode, browsing) {
                        Some(p) => match resolve_fs_path(self.root_path.as_str(), &browsing.root, p.as_slice()) {
                            Some(fs_path) => {
                                match resolve_node(&browsing.root, p.as_slice()) {
                                    Some(node) => {
                                        self.overlay = Some(
                                            Overlay::DeleteConfirm {
                                                node_name: node.name.clone(),
                                                path_indices: copy_indices(p.as_slice()),
                                                fs_path,
                                                is_dir: node.node_type == NodeType::Dir,
                                                size: node.size,
                                            },
                                        );
                                    },
                                    None => {},
                                }
                            },
                            None => {},
                        },
                        None => {},
                    }
                    return KeyOutcome::Continue;
                }
                if k == KeyCode::Char('/') {
                    let mut all_entries: Vec<SearchEntry> = Vec::new();
                    let mut indices: Vec<usize> = Vec::new();
                    let mut names: Vec<String> = Vec::new();
                    proof {
                        assert(texts(names@) =~= Seq::<Seq<char>>::empty());
                        assert(entry_views(all_entries@) =~= Seq::<(Seq<char>, Seq<usize>, Seq<Seq<char>>)>::empty());
                    }
                    collect_all_entries(&browsing.root, &mut indices, &mut names, &mut all_entries);
                    proof {
                        assert(entry_views(all_entries@) =~= entries_from(
                            browsing.root.children@,
                            0,
                            Seq::empty(),
                            Seq::empty(),
                        ));
                    }
                    self.overlay = Some(
                        Overlay::Search {
                            input: TextInputState::new(),
                            all_entries,
                            results: Vec::new(),
                            selected: 0,
                            list_selected: None,
                        },
                    );
                    return KeyOutcome::Continue;
                }
                if k == KeyCode::Char('f') && !key.shift {
                    self.overlay = Some(Overlay::FilterMenu);
                    return KeyOutcome::Continue;
                }
                if k == KeyCode::Char('b') && key.shift {
                    let list_selected = if self.bookmarks.len() > 0 {
                        Some(0)
                    } else {
                        None
                    };
                    self.overlay = Some(
                        Overlay::BookmarkList {
                            bookmarks: copy_bookmarks(&self.bookmarks.bookmarks),
                            selected: 0,
                            list_selected,
                        },
                    );
                    return KeyOutcome::Continue;
                }
                if k == KeyCode::Char('b') {
                    match Self::bookmark_dir_path(mode, browsing, self.root_path.as_str()) {
                        Some(path) => {
                            let label = match file_name_of(path.as_str()) {
                                Some(l) => l,
                                None => path.clone(),
                            };
                            if self.bookmarks.add(path, label) {
                                return KeyOutcome::SaveBookmarks { added: true };
                            } else {
                                self.overlay = Some(
                                    Overlay::Flash { message: String::from_str("Already bookmarked") },
                                );
                                return KeyOutcome::Continue;
                            }
                        },
                        None => {
                            return KeyOutcome::Continue;
                        },
                    }
                }
                let filter = browsing.active_filter.as_ref();
                let now = clock_for(filter);
                match mode {
                    ViewMode::Tree => {
                        handle_tree_key_at(
                            key,
                            &browsing.root,
                            &mut browsing.tree_state,
                            &mut browsing.flat_rows,
                            filter,
                            now,
                        );
                    },
                    ViewMode::Bar => {
                        handle_nav_key_at(key, &mut browsing.nav, &browsing.root, filter, now);
                        sync_bar_list_selection_at(
                            &browsing.nav,
                            &browsing.root,
                            &mut browsing.bar_state,
                            filter,
                            now,
                        );
                    },
                    ViewMode::Treemap => {
                        handle_treemap_key_at(
                            key,
                            &mut browsing.nav,
                            &browsing.root,
                            &mut browsing.treemap_state,
                            filter,
                            now,
                        );
                    },
                }
                KeyOutcome::Continue
            },
            _ => KeyOutcome::Continue,
        }
    }

    /// Handle a key: the overlay takes it when one is open; otherwise `q` and Esc quit,
    /// and while browsing `1`-`3` switch views and the other keys act on the selection
    /// or move through the current view. The outcome says what must be done outside.
    pub fn handle_key(&mut self, key: KeyPress) -> (out: KeyOutcome)
        requires
            app_ok(*old(self)),
        ensures
            app_ok(*final(self)),
            key_effect(*old(self), key, *final(self), out),
    {
        if self.overlay.is_some() {
            let ghost o = self.overlay->0;
            let action = match &mut self.overlay {
                Some(overlay) => handle_overlay_key(overlay, key),
                None => OverlayAction::Consumed,
            };
            let ghost mid = *self;
            let out = self.handle_overlay_action(action);
            proof {
                assert(mid == with_overlay(*old(self), mid.overlay));
                assert(overlay_step(o, key.code, mid.overlay->0, action));
            }
            return out;
        }
        let k = key.code;
        if k == KeyCode::Char('q') || k == KeyCode::Esc {
            return KeyOutcome::Quit;
        }
        match self.state {
            AppState::Browsing(_) => {},
            _ => {
                return KeyOutcome::Continue;
            },
        }
        if k == KeyCode::Char('1') {
            self.view_mode = ViewMode::Tree;
            return KeyOutcome::Continue;
        }
        if k == KeyCode::Char('2') {
            self.switch_to_nav_view(ViewMode::Treemap);
            return KeyOutcome::Continue;
        }
        if k == KeyCode::Char('3') {
            self.switch_to_nav_view(ViewMode::Bar);
            return KeyOutcome::Continue;
        }
        self.handle_browse_key(key)
    }
}

/// Bookmarking from the tree view: with the cursor on a directory, the directory itself
/// is bookmarked; on anything else, the directory that holds it. The path is the root
/// path joined with the names passed on the way to the entry, the entry's own name
/// (the last of them) left out for a non-directory.
pub proof fn lemma_bookmark_dir_in_tree(b: BrowsingState, root_path: Seq<char>)
    requires
        b.tree_state.cursor < b.flat_rows@.len(),
        node_at(b.root, b.flat_rows@[b.tree_state.cursor as int].path_indices@) is Some,
    ensures
        ({
            let p = b.flat_rows@[b.tree_state.cursor as int].path_indices@;
            let n = node_at(b.root, p)->0;
            let names = names_on_path(b.root, p);
            &&& p.len() > 0 ==> names.len() == p.len() && names.last() == n.name@
            &&& n.node_type == NodeType::Dir ==> bookmark_dir(ViewMode::Tree, b, root_path) == Some(
                join_all(root_path, names),
            )
            &&& n.node_type != NodeType::Dir && p.len() > 0 ==> bookmark_dir(ViewMode::Tree, b, root_path)
                == Some(join_all(root_path, names.subrange(0, names.len() - 1)))
        }),
{
    let p = b.flat_rows@[b.tree_state.cursor as int].path_indices@;
    if p.len() > 0 {
        lemma_node_at_parent(b.root, p);
        assert(p.drop_last().push(p.last()) =~= p);
        lemma_path_push(b.root, p.drop_last(), p.last());
        lemma_names_len(b.root, p.drop_last());
        let names = names_on_path(b.root, p);
        assert(names.subrange(0, names.len() - 1) =~= names_on_path(b.root, p.drop_last()));
    }
}

} // verus!

