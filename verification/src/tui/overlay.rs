use vstd::prelude::*;

use fuzzy_matcher::FuzzyMatcher;

use crate::config::bookmarks::Bookmark;
use crate::model::sorting::{is_stable_sort, stable_sort_by_key, SortKey};
use crate::strings::{copy_indices, copy_names, texts};
use crate::tui::filter::{date_preset, date_preset_days, size_preset, size_preset_bytes, FilterCriteria};
use crate::tui::input::{is_char, is_down, is_up, KeyCode, KeyPress};
use crate::tui::widgets::text_input::{char_count, insert_spec, TextInputState};

verus! {

/// Pre-collected node entry for search (built once when overlay opens).
#[derive(Debug, Clone)]
pub struct SearchEntry {
    pub name: String,
    pub path_indices: Vec<usize>,
    pub name_path: Vec<String>,
}

/// A single fuzzy search result.
#[derive(Debug, Clone)]
pub struct SearchResult {
    pub name: String,
    pub path_indices: Vec<usize>,
    pub name_path: Vec<String>,
    pub score: i64,
}

/// Active overlay on top of the main view. A list's highlighted row is
/// `list_selected`.
pub enum Overlay {
    /// Delete confirmation dialog.
    DeleteConfirm {
        node_name: String,
        path_indices: Vec<usize>,
        fs_path: String,
        is_dir: bool,
        size: u64,
    },
    /// File info popup.
    FileInfo { lines: Vec<String> },
    /// Bookmark list.
    BookmarkList { bookmarks: Vec<Bookmark>, selected: usize, list_selected: Option<usize> },
    /// Fuzzy search overlay.
    Search {
        input: TextInputState,
        /// All node names collected once when overlay opens.
        all_entries: Vec<SearchEntry>,
        results: Vec<SearchResult>,
        selected: usize,
        list_selected: Option<usize>,
    },
    /// Filter mode submenu.
    FilterMenu,
    /// Extension filter input.
    FilterExtInput { input: TextInputState },
    /// Status flash message (auto-dismiss on any key).
    Flash { message: String },
}

/// Result of handling a key in an overlay.
pub enum OverlayAction {
    /// Overlay consumed the key, keep it open.
    Consumed,
    /// Close the overlay, no further action.
    Close,
    /// Confirm delete action.
    ConfirmDelete { path_indices: Vec<usize>, fs_path: String, is_dir: bool },
    /// Jump to a bookmarked path.
    BookmarkJump(String),
    /// Remove a bookmark at index.
    BookmarkRemove(usize),
    /// Search query changed — needs result refresh.
    SearchUpdate,
    /// Jump to search result.
    SearchJump { path_indices: Vec<usize>, name_path: Vec<String> },
    /// Apply a filter.
    ApplyFilter(FilterCriteria),
    /// Clear active filter.
    ClearFilter,
    /// Switch to extension filter input.
    SwitchToExtFilter,
}

/// A text input whose cursor lies within its text (which, as any `String`'s, has at
/// most `isize::MAX` characters).
pub open spec fn input_ok(i: TextInputState) -> bool {
    i.cursor <= i.query@.len() <= isize::MAX
}

/// An action that can be carried out: a filter it applies has a day count the clock can
/// take.
pub open spec fn action_ok(a: OverlayAction) -> bool {
    match a {
        OverlayAction::ApplyFilter(f) => crate::tui::filter::filter_ok(f),
        _ => true,
    }
}

/// The conditions under which keys can be handled in `o`: text inputs keep their cursor
/// within the text, and list selections can move one further.
pub open spec fn overlay_ok(o: Overlay) -> bool {
    match o {
        Overlay::BookmarkList { selected, .. } => selected < usize::MAX,
        Overlay::Search { input, selected, .. } => input_ok(input) && selected < usize::MAX,
        Overlay::FilterExtInput { input } => input_ok(input),
        _ => true,
    }
}

/// One place down a list of `len` rows, staying on the last.
pub open spec fn step_down(selected: int, len: int) -> int {
    if selected + 1 < len - 1 {
        selected + 1
    } else {
        len - 1
    }
}

/// One place up a list, staying on the first.
pub open spec fn step_up(selected: int) -> int {
    if selected > 0 {
        selected - 1
    } else {
        0
    }
}

/// The filter that key `k` applies in the filter menu, if it applies one: `1`-`4` the
/// size presets, `d`, `w`, `m`, `y` the date presets.
pub open spec fn menu_filter(k: KeyCode) -> Option<FilterCriteria> {
    if is_char(k, '1') {
        Some(FilterCriteria::SizeRange { min: Some(size_preset_bytes()[0]), max: None })
    } else if is_char(k, '2') {
        Some(FilterCriteria::SizeRange { min: Some(size_preset_bytes()[1]), max: None })
    } else if is_char(k, '3') {
        Some(FilterCriteria::SizeRange { min: Some(size_preset_bytes()[2]), max: None })
    } else if is_char(k, '4') {
        Some(FilterCriteria::SizeRange { min: Some(size_preset_bytes()[3]), max: None })
    } else if is_char(k, 'd') {
        Some(FilterCriteria::ModifiedWithin(date_preset_days()[0]))
    } else if is_char(k, 'w') {
        Some(FilterCriteria::ModifiedWithin(date_preset_days()[1]))
    } else if is_char(k, 'm') {
        Some(FilterCriteria::ModifiedWithin(date_preset_days()[2]))
    } else if is_char(k, 'y') {
        Some(FilterCriteria::ModifiedWithin(date_preset_days()[3]))
    } else {
        None
    }
}

/// What a key does in the delete confirmation: `y` confirms with the dialog's target,
/// `n` or Esc closes it, anything else is swallowed.
pub open spec fn delete_confirm_step(
    k: KeyCode,
    path_indices: Seq<usize>,
    fs_path: Seq<char>,
    is_dir: bool,
    r: OverlayAction,
) -> bool {
    if is_char(k, 'y') || is_char(k, 'Y') {
        r matches OverlayAction::ConfirmDelete { path_indices: p, fs_path: f, is_dir: d } && p@
            == path_indices && f@ == fs_path && d == is_dir
    } else if is_char(k, 'n') || is_char(k, 'N') || k == KeyCode::Esc {
        r is Close
    } else {
        r is Consumed
    }
}

/// What a key does in the filter menu.
pub open spec fn filter_menu_step(k: KeyCode, r: OverlayAction) -> bool {
    if k == KeyCode::Esc || is_char(k, 'f') || is_char(k, 'q') {
        r is Close
    } else if is_char(k, 'e') {
        r is SwitchToExtFilter
    } else if is_char(k, 'c') {
        r is ClearFilter
    } else {
        match menu_filter(k) {
            Some(f) => r matches OverlayAction::ApplyFilter(g) && g == f,
            None => r is Consumed,
        }
    }
}

/// A size filter with only a lower bound.
fn min_size_filter(min: u64) -> (f: FilterCriteria)
    ensures
        f == (FilterCriteria::SizeRange { min: Some(min), max: None }),
{
    FilterCriteria::SizeRange { min: Some(min), max: None }
}

fn filter_menu_key(k: KeyCode) -> (r: OverlayAction)
    ensures
        filter_menu_step(k, r),
{
    match k {
        KeyCode::Esc => OverlayAction::Close,
        KeyCode::Char(c) => {
            if c == 'f' || c == 'q' {
                OverlayAction::Close
            } else if c == 'e' {
                OverlayAction::SwitchToExtFilter
            } else if c == 'c' {
                OverlayAction::ClearFilter
            } else if c == '1' {
                OverlayAction::ApplyFilter(min_size_filter(size_preset(0).0))
            } else if c == '2' {
                OverlayAction::ApplyFilter(min_size_filter(size_preset(1).0))
            } else if c == '3' {
                OverlayAction::ApplyFilter(min_size_filter(size_preset(2).0))
            } else if c == '4' {
                OverlayAction::ApplyFilter(min_size_filter(size_preset(3).0))
            } else if c == 'd' {
                OverlayAction::ApplyFilter(FilterCriteria::ModifiedWithin(date_preset(0).0))
            } else if c == 'w' {
                OverlayAction::ApplyFilter(FilterCriteria::ModifiedWithin(date_preset(1).0))
            } else if c == 'm' {
                OverlayAction::ApplyFilter(FilterCriteria::ModifiedWithin(date_preset(2).0))
            } else if c == 'y' {
                OverlayAction::ApplyFilter(FilterCriteria::ModifiedWithin(date_preset(3).0))
            } else {
                OverlayAction::Consumed
            }
        },
        _ => OverlayAction::Consumed,
    }
}

/// The text and cursor of an input after backspace.
pub open spec fn after_backspace(q: Seq<char>, c: int) -> (Seq<char>, int) {
    if c == 0 {
        (q, 0)
    } else {
        (q.remove(c - 1), c - 1)
    }
}

/// The text and cursor of an input after a key typed or moved in it: a character is
/// typed at the cursor, Backspace deletes before it, Left and Right move it.
pub open spec fn input_after(q: Seq<char>, c: int, k: KeyCode) -> (Seq<char>, int) {
    match k {
        KeyCode::Char(ch) => (insert_spec(q, c, ch), c + 1),
        KeyCode::Backspace => after_backspace(q, c),
        KeyCode::Left => (q, step_up(c)),
        KeyCode::Right => (
            q,
            if c < q.len() {
                c + 1
            } else {
                q.len() as int
            },
        ),
        _ => (q, c),
    }
}

/// The text and cursor of an input.
pub open spec fn input_model(i: TextInputState) -> (Seq<char>, int) {
    (i.query@, i.cursor as int)
}

/// What a key does in the file info popup: Esc, `i` or `q` close it.
pub open spec fn file_info_step(k: KeyCode, r: OverlayAction) -> bool {
    if k == KeyCode::Esc || is_char(k, 'i') || is_char(k, 'q') {
        r is Close
    } else {
        r is Consumed
    }
}

/// What a key does in the bookmark list `bookmarks` with `selected` (and highlighted row
/// `list`): `new` is the overlay afterwards and `r` the action.
pub open spec fn bookmark_list_step(
    bookmarks: Vec<Bookmark>,
    selected: usize,
    list: Option<usize>,
    k: KeyCode,
    new: Overlay,
    r: OverlayAction,
) -> bool {
    let len = bookmarks@.len() as int;
    let same = new == Overlay::BookmarkList { bookmarks, selected, list_selected: list };
    if k == KeyCode::Esc || is_char(k, 'B') || is_char(k, 'q') {
        same && r is Close
    } else if is_down(k) {
        &&& r is Consumed
        &&& if len > 0 {
            new matches Overlay::BookmarkList { bookmarks: b, selected: s, list_selected: l } && b
                == bookmarks && s == step_down(selected as int, len) && l == Some(s)
        } else {
            same
        }
    } else if is_up(k) {
        &&& r is Consumed
        &&& new matches Overlay::BookmarkList { bookmarks: b, selected: s, list_selected: l } && b
            == bookmarks && s == step_up(selected as int) && l == Some(s)
    } else if k == KeyCode::Enter {
        &&& same
        &&& if selected < len {
            r matches OverlayAction::BookmarkJump(p) && p@ == bookmarks@[selected as int].path@
        } else {
            r is Close
        }
    } else if is_char(k, 'd') {
        &&& same
        &&& if len > 0 {
            r matches OverlayAction::BookmarkRemove(i) && i == selected
        } else {
            r is Consumed
        }
    } else {
        same && r is Consumed
    }
}

/// What a key does in the search overlay: `new` is the overlay afterwards and `r` the
/// action. While results are shown, `j`/`k` and the arrows move through them, Enter jumps
/// to the selected one and any other character clears them; with no results, characters
/// are typed into the query and Enter runs the search (or closes on an empty query).
/// Backspace deletes from the query and clears the results; Esc closes.
pub open spec fn search_step(
    input: TextInputState,
    all: Vec<SearchEntry>,
    results: Vec<SearchResult>,
    selected: usize,
    list: Option<usize>,
    k: KeyCode,
    new: Overlay,
    r: OverlayAction,
) -> bool {
    let len = results@.len() as int;
    let same = new == Overlay::Search { input, all_entries: all, results, selected, list_selected: list };
    if k == KeyCode::Esc {
        same && r is Close
    } else if k == KeyCode::Enter {
        &&& same
        &&& if len == 0 {
            if input.query@.len() > 0 {
                r is SearchUpdate
            } else {
                r is Close
            }
        } else if selected < len {
            r matches OverlayAction::SearchJump { path_indices: p, name_path: n } && p@
                == results@[selected as int].path_indices@ && texts(n@) == texts(
                results@[selected as int].name_path@,
            )
        } else {
            r is Close
        }
    } else if is_down(k) && len > 0 {
        &&& r is Consumed
        &&& new matches Overlay::Search {
            input: i,
            all_entries: a,
            results: rs,
            selected: s,
            list_selected: l,
        } && i == input && a == all && rs == results && s == step_down(selected as int, len) && l
            == Some(s)
    } else if is_up(k) && len > 0 {
        &&& r is Consumed
        &&& new matches Overlay::Search {
            input: i,
            all_entries: a,
            results: rs,
            selected: s,
            list_selected: l,
        } && i == input && a == all && rs == results && s == step_up(selected as int) && l == Some(
            s,
        )
    } else if k == KeyCode::Backspace {
        &&& r is Consumed
        &&& new matches Overlay::Search {
            input: i,
            all_entries: a,
            results: rs,
            selected: s,
            list_selected: l,
        } && input_model(i) == after_backspace(input.query@, input.cursor as int) && a == all
            && rs@.len() == 0 && s == 0 && l is None
    } else if k is Char && len == 0 {
        &&& r is Consumed
        &&& new matches Overlay::Search {
            input: i,
            all_entries: a,
            results: rs,
            selected: s,
            list_selected: l,
        } && input_model(i) == input_after(input.query@, input.cursor as int, k) && a == all && rs
            == results && s == selected && l == list
    } else if k is Char {
        &&& r is Consumed
        &&& new matches Overlay::Search {
            input: i,
            all_entries: a,
            results: rs,
            selected: s,
            list_selected: l,
        } && i == input && a == all && rs@.len() == 0 && s == 0 && l is None
    } else {
        same && r is Consumed
    }
}

/// What a key does in the extension filter input: Enter applies the typed extension (or
/// clears the filter when nothing is typed), Esc closes, and typing, Backspace, Left and
/// Right edit the input.
pub open spec fn ext_input_step(input: TextInputState, k: KeyCode, new: Overlay, r: OverlayAction) -> bool {
    let same = new == Overlay::FilterExtInput { input };
    if k == KeyCode::Esc {
        same && r is Close
    } else if k == KeyCode::Enter {
        &&& same
        &&& if input.query@.len() == 0 {
            r is ClearFilter
        } else {
            r matches OverlayAction::ApplyFilter(f) && f matches FilterCriteria::Extension(e) && e@
                == input.query@
        }
    } else if k is Char || k == KeyCode::Backspace || k == KeyCode::Left || k == KeyCode::Right {
        &&& r is Consumed
        &&& new matches Overlay::FilterExtInput { input: i } && input_model(i) == input_after(
            input.query@,
            input.cursor as int,
            k,
        )
    } else {
        same && r is Consumed
    }
}

/// What a key does in overlay `old`: `new` is the overlay afterwards and `r` the action.
pub open spec fn overlay_step(old: Overlay, k: KeyCode, new: Overlay, r: OverlayAction) -> bool {
    match old {
        Overlay::DeleteConfirm { path_indices, fs_path, is_dir, .. } => new == old
            && delete_confirm_step(k, path_indices@, fs_path@, is_dir, r),
        Overlay::FileInfo { .. } => new == old && file_info_step(k, r),
        Overlay::BookmarkList { bookmarks, selected, list_selected } => bookmark_list_step(
            bookmarks,
            selected,
            list_selected,
            k,
            new,
            r,
        ),
        Overlay::Search { input, all_entries, results, selected, list_selected } => search_step(
            input,
            all_entries,
            results,
            selected,
            list_selected,
            k,
            new,
            r,
        ),
        Overlay::FilterMenu => new == old && filter_menu_step(k, r),
        Overlay::FilterExtInput { input } => ext_input_step(input, k, new, r),
        Overlay::Flash { .. } => new == old && r is Close,
    }
}

fn is_key_char(k: KeyCode, c: char) -> (r: bool)
    ensures
        r == is_char(k, c),
{
    match k {
        KeyCode::Char(d) => d == c,
        _ => false,
    }
}

fn is_key_down(k: KeyCode) -> (r: bool)
    ensures
        r == is_down(k),
{
    is_key_char(k, 'j') || k == KeyCode::Down
}

fn is_key_up(k: KeyCode) -> (r: bool)
    ensures
        r == is_up(k),
{
    is_key_char(k, 'k') || k == KeyCode::Up
}

/// Handle a key event for the current overlay.
pub fn handle_overlay_key(overlay: &mut Overlay, key: KeyPress) -> (r: OverlayAction)
    requires
        overlay_ok(*old(overlay)),
    ensures
        overlay_step(*old(overlay), key.code, *final(overlay), r),
        overlay_ok(*final(overlay)),
        action_ok(r),
{
    let k = key.code;
    match overlay {
        Overlay::DeleteConfirm { path_indices, fs_path, is_dir, .. } => {
            if is_key_char(k, 'y') || is_key_char(k, 'Y') {
                let p = copy_indices(path_indices.as_slice());
                let f = fs_path.clone();
                OverlayAction::ConfirmDelete { path_indices: p, fs_path: f, is_dir: *is_dir }
            } else if is_key_char(k, 'n') || is_key_char(k, 'N') || k == KeyCode::Esc {
                OverlayAction::Close
            } else {
                OverlayAction::Consumed
            }
        },
        Overlay::FileInfo { .. } => {
            if k == KeyCode::Esc || is_key_char(k, 'i') || is_key_char(k, 'q') {
                OverlayAction::Close
            } else {
                OverlayAction::Consumed
            }
        },
        Overlay::BookmarkList { bookmarks, selected, list_selected } => {
            if k == KeyCode::Esc || is_key_char(k, 'B') || is_key_char(k, 'q') {
                OverlayAction::Close
            } else if is_key_down(k) {
                if bookmarks.len() > 0 {
                    let last = bookmarks.len() - 1;
                    *selected = if *selected + 1 < last {
                        *selected + 1
                    } else {
                        last
                    };
                    *list_selected = Some(*selected);
                }
                OverlayAction::Consumed
            } else if is_key_up(k) {
                *selected = if *selected > 0 {
                    *selected - 1
                } else {
                    0
                };
                *list_selected = Some(*selected);
                OverlayAction::Consumed
            } else if k == KeyCode::Enter {
                if *selected < bookmarks.len() {
                    OverlayAction::BookmarkJump(bookmarks[*selected].path.clone())
                } else {
                    OverlayAction::Close
                }
            } else if is_key_char(k, 'd') {
                if bookmarks.len() > 0 {
                    OverlayAction::BookmarkRemove(*selected)
                } else {
                    OverlayAction::Consumed
                }
            } else {
                OverlayAction::Consumed
            }
        },
        Overlay::Search { input, results, selected, list_selected, .. } => {
            if k == KeyCode::Esc {
                OverlayAction::Close
            } else if k == KeyCode::Enter {
                if results.len() == 0 {
                    if char_count(input.query.as_str()) > 0 {
                        OverlayAction::SearchUpdate
                    } else {
                        OverlayAction::Close
                    }
                } else if *selected < results.len() {
                    let result = &results[*selected];
                    OverlayAction::SearchJump {
                        path_indices: copy_indices(result.path_indices.as_slice()),
                        name_path: copy_names(result.name_path.as_slice()),
                    }
                } else {
                    OverlayAction::Close
                }
            } else if is_key_down(k) && results.len() > 0 {
                let last = results.len() - 1;
                *selected = if *selected + 1 < last {
                    *selected + 1
                } else {
                    last
                };
                *list_selected = Some(*selected);
                OverlayAction::Consumed
            } else if is_key_up(k) && results.len() > 0 {
                *selected = if *selected > 0 {
                    *selected - 1
                } else {
                    0
                };
                *list_selected = Some(*selected);
                OverlayAction::Consumed
            } else if k == KeyCode::Backspace {
                input.backspace();
                results.clear();
                *selected = 0;
                *list_selected = None;
                OverlayAction::Consumed
            } else {
                match k {
                    KeyCode::Char(ch) => {
                        if results.len() == 0 {
                            input.insert(ch);
                        } else {
                            results.clear();
                            *selected = 0;
                            *list_selected = None;
                        }
                        OverlayAction::Consumed
                    },
                    _ => OverlayAction::Consumed,
                }
            }
        },
        Overlay::FilterMenu => filter_menu_key(k),
        Overlay::FilterExtInput { input } => {
            match k {
                KeyCode::Esc => OverlayAction::Close,
                KeyCode::Enter => {
                    if char_count(input.query.as_str()) == 0 {
                        OverlayAction::ClearFilter
                    } else {
                        OverlayAction::ApplyFilter(FilterCriteria::Extension(input.query.clone()))
                    }
                },
                KeyCode::Backspace => {
                    input.backspace();
                    OverlayAction::Consumed
                },
                KeyCode::Char(ch) => {
                    input.insert(ch);
                    OverlayAction::Consumed
                },
                KeyCode::Left => {
                    input.move_left();
                    OverlayAction::Consumed
                },
                KeyCode::Right => {
                    input.move_right();
                    OverlayAction::Consumed
                },
                _ => OverlayAction::Consumed,
            }
        },
        Overlay::Flash { .. } => OverlayAction::Close,
    }
}

// ---------------------------------------------------------------------------
// Search ranking
// ---------------------------------------------------------------------------

/// The score that `fuzzy_matcher`'s skim matcher (`SkimMatcherV2`, default settings)
/// gives `choice` for `pattern`, or `None` when the pattern does not match.
pub uninterp spec fn skim_score(choice: Seq<char>, pattern: Seq<char>) -> Option<i64>;

/// Scores `choice` against `pattern` with a default `SkimMatcherV2`
/// (`FuzzyMatcher::fuzzy_match`). The score is a function of the two texts alone: the
/// matcher's settings are the defaults every time, and its caches do not change results.
#[verifier::external_body]
fn skim_fuzzy_match(choice: &str, pattern: &str) -> (r: Option<i64>)
    ensures
        r == skim_score(choice@, pattern@),
{
    fuzzy_matcher::skim::SkimMatcherV2::default().fuzzy_match(choice, pattern)
}

/// An entry that matched the query: its place among the entries and its score.
#[derive(Debug, Clone, Copy, PartialEq, Eq, Structural)]
pub struct ScoredIndex {
    pub index: usize,
    pub score: i64,
}

impl SortKey for ScoredIndex {
    /// Higher scores come first.
    open spec fn key_spec(&self) -> int {
        -(self.score as int)
    }

    fn sort_key(&self) -> (k: i128) {
        -(self.score as i128)
    }
}

/// The entries among the first `n` that have a score, in entry order.
pub open spec fn scored_upto(scores: Seq<Option<i64>>, n: int) -> Seq<ScoredIndex>
    decreases n,
{
    if n <= 0 {
        Seq::empty()
    } else {
        scored_upto(scores, n - 1) + match scores[n - 1] {
            Some(sc) => seq![ScoredIndex { index: (n - 1) as usize, score: sc }],
            None => Seq::empty(),
        }
    }
}

/// The entries that have a score, in entry order.
pub open spec fn scored(scores: Seq<Option<i64>>) -> Seq<ScoredIndex> {
    scored_upto(scores, scores.len() as int)
}

/// How many results a search shows at most.
pub open spec fn max_results() -> int {
    20
}

/// What a search result says: the entry's name, index path and name path, and the score.
pub open spec fn result_view(r: SearchResult) -> (Seq<char>, Seq<usize>, Seq<Seq<char>>, i64) {
    (r.name@, r.path_indices@, texts(r.name_path@), r.score)
}

/// The result for entry `e` with score `score`.
pub open spec fn result_for(e: SearchEntry, score: i64) -> (Seq<char>, Seq<usize>, Seq<Seq<char>>, i64) {
    (e.name@, e.path_indices@, texts(e.name_path@), score)
}

/// `results` are the first `max_results()` of `sorted` (scored entries of `entries`), as
/// results.
pub open spec fn results_from(
    results: Seq<SearchResult>,
    entries: Seq<SearchEntry>,
    sorted: Seq<ScoredIndex>,
) -> bool {
    &&& results.len() == if sorted.len() < max_results() {
        sorted.len() as int
    } else {
        max_results()
    }
    &&& forall|k: int|
        0 <= k < results.len() ==> result_view(#[trigger] results[k]) == result_for(
            entries[sorted[k].index as int],
            sorted[k].score,
        )
}

proof fn lemma_scored_upto_bounds(scores: Seq<Option<i64>>, n: int)
    requires
        0 <= n <= scores.len() <= usize::MAX,
    ensures
        forall|k: int|
            0 <= k < scored_upto(scores, n).len() ==> #[trigger] scored_upto(scores, n)[k].index < n,
    decreases n,
{
    if n > 0 {
        lemma_scored_upto_bounds(scores, n - 1);
        let prev = scored_upto(scores, n - 1);
        let all = scored_upto(scores, n);
        assert forall|k: int| 0 <= k < all.len() implies #[trigger] all[k].index < n by {
            if k < prev.len() {
                assert(all[k] == prev[k]);
            }
        }
    }
}

/// A stable sort keeps the items of the sequence it sorts.
proof fn lemma_sorted_items_from(sorted: Seq<ScoredIndex>, old: Seq<ScoredIndex>, n: int)
    requires
        is_stable_sort(sorted, old),
        forall|k: int| 0 <= k < old.len() ==> #[trigger] old[k].index < n,
    ensures
        sorted.len() == old.len(),
        forall|k: int| 0 <= k < sorted.len() ==> #[trigger] sorted[k].index < n,
{
    let p = choose|p: Seq<int>| crate::model::sorting::stable_sort_witness(sorted, old, p);
    assert forall|k: int| 0 <= k < sorted.len() implies #[trigger] sorted[k].index < n by {
        assert(sorted[k] == old[p[k]]);
    }
}

/// Ranks the entries by their scores: those with a score, highest first (entries with
/// equal scores in entry order), at most `max_results()` of them.
pub fn rank_scored(entries: &Vec<SearchEntry>, scores: &Vec<Option<i64>>) -> (results: Vec<
    SearchResult,
>)
    requires
        scores@.len() == entries@.len(),
    ensures
        exists|sorted: Seq<ScoredIndex>|
            is_stable_sort(sorted, scored(scores@)) && results_from(results@, entries@, sorted),
{
    let mut matched: Vec<ScoredIndex> = Vec::new();
    let mut i: usize = 0;
    while i < scores.len()
        invariant
            i <= scores@.len(),
            matched@ == scored_upto(scores@, i as int),
        decreases scores@.len() - i,
    {
        match scores[i] {
            Some(sc) => {
                matched.push(ScoredIndex { index: i, score: sc });
            },
            None => {},
        }
        proof {
            assert(matched@ =~= scored_upto(scores@, i as int + 1));
        }
        i = i + 1;
    }
    proof {
        lemma_scored_upto_bounds(scores@, scores@.len() as int);
    }
    let ghost before = matched@;
    assert(before == scored(scores@));
    stable_sort_by_key(&mut matched);
    proof {
        lemma_sorted_items_from(matched@, before, entries@.len() as int);
    }
    let count = if matched.len() < 20 {
        matched.len()
    } else {
        20
    };
    let mut results: Vec<SearchResult> = Vec::new();
    let mut k: usize = 0;
    while k < count
        invariant
            k <= count <= matched@.len(),
            count == if matched@.len() < 20 {
                matched@.len() as int
            } else {
                20
            },
            forall|j: int| 0 <= j < matched@.len() ==> #[trigger] matched@[j].index < entries@.len(),
            results@.len() == k,
            forall|j: int|
                0 <= j < k ==> result_view(#[trigger] results@[j]) == result_for(
                    entries@[matched@[j].index as int],
                    matched@[j].score,
                ),
        decreases count - k,
    {
        let m = matched[k];
        let e = &entries[m.index];
        let r = SearchResult {
            name: e.name.clone(),
            path_indices: copy_indices(e.path_indices.as_slice()),
            name_path: copy_names(e.name_path.as_slice()),
            score: m.score,
        };
        results.push(r);
        k = k + 1;
    }
    proof {
        assert(before == scored(scores@));
        assert(is_stable_sort(matched@, scored(scores@)));
        assert(results_from(results@, entries@, matched@));
    }
    results
}

/// The bytes `c` takes in UTF-8.
pub open spec fn utf8_width(c: char) -> int {
    if (c as u32) < 0x80 {
        1
    } else if (c as u32) < 0x800 {
        2
    } else if (c as u32) < 0x10000 {
        3
    } else {
        4
    }
}

/// The length of `s` in UTF-8 bytes (what `str::len` reports).
pub open spec fn utf8_len(s: Seq<char>) -> int
    decreases s.len(),
{
    if s.len() == 0 {
        0
    } else {
        utf8_len(s.drop_last()) + utf8_width(s.last())
    }
}

proof fn lemma_utf8_len_grows(s: Seq<char>)
    ensures
        utf8_len(s) >= s.len(),
    decreases s.len(),
{
    if s.len() > 0 {
        lemma_utf8_len_grows(s.drop_last());
    }
}

/// Whether `q` is shorter than two UTF-8 bytes.
fn is_short_query(q: &str) -> (r: bool)
    ensures
        r == (utf8_len(q@) < 2),
{
    let cs = crate::strings::chars_of(q);
    if cs.len() == 0 {
        true
    } else if cs.len() == 1 {
        let c = cs[0];
        proof {
            assert(cs@.drop_last() =~= Seq::<char>::empty());
            assert(cs@.last() == c);
            assert(utf8_len(cs@) == utf8_len(Seq::<char>::empty()) + utf8_width(c));
        }
        (c as u32) < 0x80
    } else {
        proof {
            lemma_utf8_len_grows(cs@.drop_last());
            assert(cs@.drop_last().len() >= 1);
            assert(utf8_len(cs@) == utf8_len(cs@.drop_last()) + utf8_width(cs@.last()));
        }
        false
    }
}

/// The entries' scores for `query`.
pub open spec fn entry_scores(entries: Seq<SearchEntry>, query: Seq<char>) -> Seq<Option<i64>> {
    entries.map_values(|e: SearchEntry| skim_score(e.name@, query))
}

/// `results` are what searching `entries` for `query` finds: nothing for a query under
/// two bytes long; otherwise the entries scored by the skim matcher, ranked highest
/// first (equal scores in entry order), at most `max_results()` of them.
pub open spec fn search_outcome(
    results: Seq<SearchResult>,
    entries: Seq<SearchEntry>,
    query: Seq<char>,
) -> bool {
    if utf8_len(query) < 2 {
        results.len() == 0
    } else {
        exists|sorted: Seq<ScoredIndex>|
            is_stable_sort(sorted, scored(entry_scores(entries, query))) && results_from(
                results,
                entries,
                sorted,
            )
    }
}

/// Runs the search: a query under two bytes long finds nothing; otherwise each entry's
/// name is scored against the query with the skim matcher and the entries are ranked by
/// `rank_scored`.
pub fn search_entries(entries: &Vec<SearchEntry>, query: &str) -> (results: Vec<SearchResult>)
    ensures
        search_outcome(results@, entries@, query@),
{
    if is_short_query(query) {
        return Vec::new();
    }
    let mut scores: Vec<Option<i64>> = Vec::new();
    let mut i: usize = 0;
    while i < entries.len()
        invariant
            i <= entries@.len(),
            scores@ == entry_scores(entries@, query@).subrange(0, i as int),
        decreases entries@.len() - i,
    {
        let sc = skim_fuzzy_match(entries[i].name.as_str(), query);
        scores.push(sc);
        proof {
            assert(scores@ =~= entry_scores(entries@, query@).subrange(0, i as int + 1));
        }
        i = i + 1;
    }
    proof {
        assert(scores@ =~= entry_scores(entries@, query@));
    }
    rank_scored(entries, &scores)
}

/// The filter menu's presets: `d`, `w`, `m` and `y` keep what was modified within the
/// last 1, 7, 30 and 365 days; `1` to `4` keep what is at least 1 MiB, 10 MiB, 100 MiB
/// and 1 GiB (1024 * 1024 bytes to the MiB) large.
pub proof fn lemma_filter_menu_presets(r: OverlayAction)
    ensures
        filter_menu_step(KeyCode::Char('d'), r) ==> r == OverlayAction::ApplyFilter(
            FilterCriteria::ModifiedWithin(1),
        ),
        filter_menu_step(KeyCode::Char('w'), r) ==> r == OverlayAction::ApplyFilter(
            FilterCriteria::ModifiedWithin(7),
        ),
        filter_menu_step(KeyCode::Char('m'), r) ==> r == OverlayAction::ApplyFilter(
            FilterCriteria::ModifiedWithin(30),
        ),
        filter_menu_step(KeyCode::Char('y'), r) ==> r == OverlayAction::ApplyFilter(
            FilterCriteria::ModifiedWithin(365),
        ),
        filter_menu_step(KeyCode::Char('1'), r) ==> r == OverlayAction::ApplyFilter(
            FilterCriteria::SizeRange { min: Some(1048576u64), max: None },
        ),
        filter_menu_step(KeyCode::Char('2'), r) ==> r == OverlayAction::ApplyFilter(
            FilterCriteria::SizeRange { min: Some(10485760u64), max: None },
        ),
        filter_menu_step(KeyCode::Char('3'), r) ==> r == OverlayAction::ApplyFilter(
            FilterCriteria::SizeRange { min: Some(104857600u64), max: None },
        ),
        filter_menu_step(KeyCode::Char('4'), r) ==> r == OverlayAction::ApplyFilter(
            FilterCriteria::SizeRange { min: Some(1073741824u64), max: None },
        ),
{
}

} // verus!
