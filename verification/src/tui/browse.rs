use vstd::prelude::*;

use crate::model::node::DiskNode;
use crate::strings::{copy_indices, copy_names, first_index, lemma_first_index_from, position_in, texts};
use crate::tui::filter::{opt_filter_ok, FilterCriteria};
use crate::tui::input::{is_char, is_down, is_into, is_out, is_up, KeyCode, KeyPress};
use crate::tui::overlay::SearchEntry;
use crate::tui::views::bar::BarState;
use crate::tui::views::nav::{
    drill_in_spec, drill_out_spec, move_spec, visible_names, NavModel, ViewNavState,
};
use crate::tui::views::tree::{
    clock_for, clock_reading, filter_visible_child_indices_at, first_named, flatten_from,
    flatten_tree_filtered_at, lemma_first_named_from, lemma_visible_from, move_down_spec,
    move_up_spec, node_by_names, position_of_name, rows_view, toggle_spec, tree_drill_in_spec,
    tree_drill_out_spec, FlatRow, TreeModel, TreeViewState,
};
use crate::tui::views::treemap::{
    navigate_spec, rects_fit, treemap_children, visible_treemap_child_indices_at, TreemapState,
};

verus! {

// ---------------------------------------------------------------------------
// Search entries
// ---------------------------------------------------------------------------

/// What a search entry says: its name, index path and name path.
pub open spec fn entry_view(e: SearchEntry) -> (Seq<char>, Seq<usize>, Seq<Seq<char>>) {
    (e.name@, e.path_indices@, texts(e.name_path@))
}

/// The views of a sequence of entries.
pub open spec fn entry_views(s: Seq<SearchEntry>) -> Seq<(Seq<char>, Seq<usize>, Seq<Seq<char>>)> {
    s.map_values(|e: SearchEntry| entry_view(e))
}

/// The entries for `children[i..]` below the index path `pi` and name path `pn`: each
/// child's own entry followed by the entries below it, depth first.
pub open spec fn entries_from(
    children: Seq<DiskNode>,
    i: int,
    pi: Seq<usize>,
    pn: Seq<Seq<char>>,
) -> Seq<(Seq<char>, Seq<usize>, Seq<Seq<char>>)>
    decreases children, children.len() - i,
{
    if i < 0 || i >= children.len() {
        Seq::empty()
    } else {
        entry_block(children[i], i, pi, pn) + entries_from(children, i + 1, pi, pn)
    }
}

/// The entries that child `i` named by `child` contributes: its own, then those below it.
pub open spec fn entry_block(
    child: DiskNode,
    i: int,
    pi: Seq<usize>,
    pn: Seq<Seq<char>>,
) -> Seq<(Seq<char>, Seq<usize>, Seq<Seq<char>>)>
    decreases child, 0int,
{
    let ip = pi.push(i as usize);
    let np = pn.push(child.name@);
    seq![(child.name@, ip, np)] + entries_from(child.children@, 0, ip, np)
}

/// Pre-collect all node names from the tree (done once when search opens): appends the
/// entries below `node`, depth first, with `path_indices` and `name_path` as the paths
/// leading to `node`; those two are as before afterwards.
pub fn collect_all_entries(
    node: &DiskNode,
    path_indices: &mut Vec<usize>,
    name_path: &mut Vec<String>,
    entries: &mut Vec<SearchEntry>,
)
    ensures
        final(path_indices)@ == old(path_indices)@,
        texts(final(name_path)@) == texts(old(name_path)@),
        entry_views(final(entries)@) == entry_views(old(entries)@) + entries_from(
            node.children@,
            0,
            old(path_indices)@,
            texts(old(name_path)@),
        ),
    decreases node.children@,
{
    let ghost pi = path_indices@;
    let ghost pn = texts(name_path@);
    let ghost start = entry_views(entries@);
    let children = &node.children;
    let mut i: usize = 0;
    while i < children.len()
        invariant
            i <= children@.len(),
            *children == node.children,
            path_indices@ == pi,
            texts(name_path@) == pn,
            entry_views(entries@) + entries_from(children@, i as int, pi, pn) == start
                + entries_from(children@, 0, pi, pn),
        decreases children@.len() - i,
    {
        let child = &children[i];
        let ghost before = entry_views(entries@);
        let ghost rest = entries_from(children@, i as int + 1, pi, pn);
        let ghost block = entry_block(children@[i as int], i as int, pi, pn);
        proof {
            assert(entries_from(children@, i as int, pi, pn) == block + rest);
            assert(decreases_to!(node.children@ => children@[i as int].children@));
        }
        path_indices.push(i);
        name_path.push(child.name.clone());
        let ghost ip = pi.push(i);
        let ghost np = pn.push(child.name@);
        proof {
            assert(texts(name_path@) =~= np);
        }
        let entry = SearchEntry {
            name: child.name.clone(),
            path_indices: copy_indices(path_indices.as_slice()),
            name_path: copy_names(name_path.as_slice()),
        };
        entries.push(entry);
        proof {
            assert(entry_views(entries@) =~= before.push((child.name@, ip, np)));
        }
        if child.children.len() > 0 {
            collect_all_entries(child, path_indices, name_path, entries);
        }
        proof {
            if child.children@.len() == 0 {
                assert(entries_from(child.children@, 0, ip, np) =~= Seq::<
                    (Seq<char>, Seq<usize>, Seq<Seq<char>>),
                >::empty());
            }
            assert(entry_views(entries@) =~= before + block);
        }
        let ghost names_before_pop = name_path@;
        path_indices.pop();
        name_path.pop();
        proof {
            assert(texts(names_before_pop) == np);
            assert(texts(name_path@) =~= texts(names_before_pop).drop_last());
            assert(path_indices@ =~= pi);
            assert(texts(name_path@) =~= pn);
            assert(entry_views(entries@) + rest =~= before + block + rest);
        }
        i = i + 1;
    }
    proof {
        assert(entries_from(children@, i as int, pi, pn) =~= Seq::<
            (Seq<char>, Seq<usize>, Seq<Seq<char>>),
        >::empty());
        assert(entry_views(entries@) =~= start + entries_from(children@, 0, pi, pn));
    }
}

// ---------------------------------------------------------------------------
// Keeping the views' selections in step
// ---------------------------------------------------------------------------

/// The bar chart row that shows the selection of `m`: none when the view directory is
/// gone, else the selected child's place among the visible children (the first place
/// when it is not among them).
pub open spec fn bar_row_spec(
    m: NavModel,
    root: DiskNode,
    filter: Option<&FilterCriteria>,
    now: int,
) -> Option<usize> {
    match node_by_names(root, m.dir) {
        None => None,
        Some(v) => {
            let k = first_index(visible_names(v, filter, now), m.selected);
            Some(
                if k >= 0 {
                    k as usize
                } else {
                    0usize
                },
            )
        },
    }
}

/// Highlight in the bar chart the row of the selected child, with the clock reading
/// `now`.
pub fn sync_bar_list_selection_at(
    nav: &ViewNavState,
    root: &DiskNode,
    bar_state: &mut BarState,
    filter: Option<&FilterCriteria>,
    now: i128,
)
    requires
        opt_filter_ok(filter),
    ensures
        final(bar_state).selected == bar_row_spec(nav@, *root, filter, now as int),
{
    match nav.resolve_view_root(root) {
        None => {
            bar_state.clear_selection();
        },
        Some(view_node) => {
            let visible = filter_visible_child_indices_at(view_node, filter, now);
            let _count = view_node.children.len();
            proof {
                lemma_visible_from(view_node.children@, 0, filter, now as int);
            }
            let mut names: Vec<String> = Vec::new();
            let mut j: usize = 0;
            while j < visible.len()
                invariant
                    j <= visible@.len(),
                    forall|k: int|
                        0 <= k < visible@.len() ==> #[trigger] visible@[k]
                            < view_node.children@.len(),
                    names@.len() == j,
                    forall|k: int|
                        0 <= k < j ==> (#[trigger] names@[k])@
                            == view_node.children@[visible@[k] as int].name@,
                decreases visible@.len() - j,
            {
                names.push(view_node.children[visible[j]].name.clone());
                j = j + 1;
            }
            proof {
                assert(texts(names@) =~= visible_names(*view_node, filter, now as int));
            }
            let pos = match position_in(names.as_slice(), nav.selected_name.as_str()) {
                Some(p) => p,
                None => 0,
            };
            bar_state.sync_selection(pos);
        },
    }
}

/// Highlight in the bar chart the row of the selected child.
/// A modification-time filter reads the clock.
pub fn sync_bar_list_selection(
    nav: &ViewNavState,
    root: &DiskNode,
    bar_state: &mut BarState,
    filter: Option<&FilterCriteria>,
)
    requires
        opt_filter_ok(filter),
    ensures
        exists|t: i128|
            clock_reading(filter, t) && final(bar_state).selected == bar_row_spec(
                nav@,
                *root,
                filter,
                t as int,
            ),
{
    let now = clock_for(filter);
    sync_bar_list_selection_at(nav, root, bar_state, filter, now);
}

/// The names of the children that the treemap draws under `v`, in order.
pub open spec fn treemap_names(v: DiskNode, filter: Option<&FilterCriteria>, now: int) -> Seq<
    Seq<char>,
> {
    treemap_children(v, filter, now).map_values(|i: usize| v.children@[i as int].name@)
}

/// `m` after `sync_treemap_selection`: the selection is cleared when the view directory
/// is gone or draws nothing, kept when the treemap draws it, and otherwise moved to the
/// first child drawn.
pub open spec fn treemap_sync_spec(
    m: NavModel,
    root: DiskNode,
    filter: Option<&FilterCriteria>,
    now: int,
) -> NavModel {
    match node_by_names(root, m.dir) {
        None => NavModel { dir: m.dir, selected: Seq::empty() },
        Some(v) => {
            let names = treemap_names(v, filter, now);
            if names.len() == 0 {
                NavModel { dir: m.dir, selected: Seq::empty() }
            } else if first_index(names, m.selected) >= 0 {
                m
            } else {
                NavModel { dir: m.dir, selected: names[0] }
            }
        },
    }
}

/// Keep the selection on a child the treemap draws, with the clock reading `now`.
pub fn sync_treemap_selection_at(
    nav: &mut ViewNavState,
    root: &DiskNode,
    filter: Option<&FilterCriteria>,
    now: i128,
)
    requires
        opt_filter_ok(filter),
    ensures
        final(nav)@ == treemap_sync_spec(old(nav)@, *root, filter, now as int),
{
    match nav.resolve_view_root(root) {
        None => {
            nav.selected_name = String::new();
        },
        Some(view_node) => {
            let visible = visible_treemap_child_indices_at(view_node, filter, now);
            let ghost tv = treemap_children(*view_node, filter, now as int);
            let mut names: Vec<String> = Vec::new();
            let mut j: usize = 0;
            while j < visible.len()
                invariant
                    j <= visible@.len(),
                    visible@ == tv,
                    forall|k: int| 0 <= k < tv.len() ==> #[trigger] tv[k] < view_node.children@.len(),
                    names@.len() == j,
                    forall|k: int|
                        0 <= k < j ==> (#[trigger] names@[k])@ == view_node.children@[tv[k] as int].name@,
                decreases visible@.len() - j,
            {
                names.push(view_node.children[visible[j]].name.clone());
                j = j + 1;
            }
            proof {
                assert(texts(names@) =~= treemap_names(*view_node, filter, now as int));
            }
            if names.len() == 0 {
                nav.selected_name = String::new();
            } else {
                match position_in(names.as_slice(), nav.selected_name.as_str()) {
                    Some(_) => {},
                    None => {
                        nav.selected_name = names[0].clone();
                    },
                }
            }
        },
    }
}

/// Keep the selection on a child the treemap draws.
/// A modification-time filter reads the clock.
pub fn sync_treemap_selection(nav: &mut ViewNavState, root: &DiskNode, filter: Option<&FilterCriteria>)
    requires
        opt_filter_ok(filter),
    ensures
        exists|t: i128|
            clock_reading(filter, t) && final(nav)@ == treemap_sync_spec(
                old(nav)@,
                *root,
                filter,
                t as int,
            ),
{
    let now = clock_for(filter);
    sync_treemap_selection_at(nav, root, filter, now);
}

// ---------------------------------------------------------------------------
// Keys in the views
// ---------------------------------------------------------------------------

/// What a key does in the tree view: `tree` and `rows` are the state and rows before,
/// `new_tree` and `new_rows` after. Down/`j` and Up/`k` move the cursor; Enter/`l`/Right
/// drills in, Backspace/`h`/Left drills out and Space toggles, each followed by
/// flattening the tree again under `filter` (with the clock at `now`).
pub open spec fn tree_key_step(
    k: KeyCode,
    root: DiskNode,
    filter: Option<&FilterCriteria>,
    now: int,
    tree: TreeModel,
    rows: Seq<FlatRow>,
    new_tree: TreeModel,
    new_rows: Seq<FlatRow>,
) -> bool {
    let reflattened = rows_view(new_rows) == flatten_from(
        root.children@,
        0,
        new_tree.expanded,
        filter,
        now,
        Seq::empty(),
        Seq::empty(),
    );
    if is_down(k) {
        new_tree == move_down_spec(tree, rows.len() as int) && new_rows == rows
    } else if is_up(k) {
        new_tree == move_up_spec(tree) && new_rows == rows
    } else if is_into(k) {
        new_tree == tree_drill_in_spec(tree, rows) && reflattened
    } else if is_out(k) {
        new_tree == tree_drill_out_spec(tree, rows) && reflattened
    } else if is_char(k, ' ') {
        new_tree == toggle_spec(tree, rows) && reflattened
    } else {
        new_tree == tree && new_rows == rows
    }
}

/// Handle a key in the tree view, with the clock reading `now`.
pub fn handle_tree_key_at(
    key: KeyPress,
    root: &DiskNode,
    tree_state: &mut TreeViewState,
    flat_rows: &mut Vec<FlatRow>,
    active_filter: Option<&FilterCriteria>,
    now: i128,
)
    requires
        opt_filter_ok(active_filter),
    ensures
        tree_key_step(
            key.code,
            *root,
            active_filter,
            now as int,
            old(tree_state)@,
            old(flat_rows)@,
            final(tree_state)@,
            final(flat_rows)@,
        ),
{
    let k = key.code;
    let into = k == KeyCode::Enter || k == KeyCode::Char('l') || k == KeyCode::Right;
    let out = k == KeyCode::Backspace || k == KeyCode::Char('h') || k == KeyCode::Left;
    if k == KeyCode::Char('j') || k == KeyCode::Down {
        tree_state.move_down(flat_rows.len());
    } else if k == KeyCode::Char('k') || k == KeyCode::Up {
        tree_state.move_up();
    } else if into {
        tree_state.drill_in(flat_rows.as_slice());
        *flat_rows = flatten_tree_filtered_at(root, &tree_state.expanded, active_filter, now);
    } else if out {
        tree_state.drill_out(flat_rows.as_slice());
        *flat_rows = flatten_tree_filtered_at(root, &tree_state.expanded, active_filter, now);
    } else if k == KeyCode::Char(' ') {
        tree_state.toggle_expand(flat_rows.as_slice());
        *flat_rows = flatten_tree_filtered_at(root, &tree_state.expanded, active_filter, now);
    }
}

/// Handle a key in the tree view. A modification-time filter reads the clock.
pub fn handle_tree_key(
    key: KeyPress,
    root: &DiskNode,
    tree_state: &mut TreeViewState,
    flat_rows: &mut Vec<FlatRow>,
    active_filter: Option<&FilterCriteria>,
)
    requires
        opt_filter_ok(active_filter),
    ensures
        exists|t: i128|
            clock_reading(active_filter, t) && tree_key_step(
                key.code,
                *root,
                active_filter,
                t as int,
                old(tree_state)@,
                old(flat_rows)@,
                final(tree_state)@,
                final(flat_rows)@,
            ),
{
    let now = clock_for(active_filter);
    handle_tree_key_at(key, root, tree_state, flat_rows, active_filter, now);
}

/// What a key does in the bar chart view: moves, drills in or drills out.
pub open spec fn nav_key_step(
    k: KeyCode,
    root: DiskNode,
    filter: Option<&FilterCriteria>,
    now: int,
    m: NavModel,
) -> NavModel {
    if is_down(k) {
        move_spec(m, root, filter, now, true)
    } else if is_up(k) {
        move_spec(m, root, filter, now, false)
    } else if is_into(k) {
        drill_in_spec(m, root, filter, now)
    } else if is_out(k) {
        drill_out_spec(m, root, filter, now)
    } else {
        m
    }
}

/// Handle a key in the bar chart view, with the clock reading `now`.
pub fn handle_nav_key_at(
    key: KeyPress,
    nav: &mut ViewNavState,
    root: &DiskNode,
    filter: Option<&FilterCriteria>,
    now: i128,
)
    requires
        opt_filter_ok(filter),
    ensures
        final(nav)@ == nav_key_step(key.code, *root, filter, now as int, old(nav)@),
{
    let k = key.code;
    if k == KeyCode::Char('j') || k == KeyCode::Down {
        nav.move_next_at(root, filter, now);
    } else if k == KeyCode::Char('k') || k == KeyCode::Up {
        nav.move_prev_at(root, filter, now);
    } else if k == KeyCode::Enter || k == KeyCode::Char('l') || k == KeyCode::Right {
        nav.drill_in_at(root, filter, now);
    } else if k == KeyCode::Backspace || k == KeyCode::Char('h') || k == KeyCode::Left {
        nav.drill_out_at(root, filter, now);
    }
}

/// Handle a key in the bar chart view. A modification-time filter reads the clock.
pub fn handle_nav_key(
    key: KeyPress,
    nav: &mut ViewNavState,
    root: &DiskNode,
    filter: Option<&FilterCriteria>,
)
    requires
        opt_filter_ok(filter),
    ensures
        exists|t: i128|
            clock_reading(filter, t) && final(nav)@ == nav_key_step(
                key.code,
                *root,
                filter,
                t as int,
                old(nav)@,
            ),
{
    let now = clock_for(filter);
    handle_nav_key_at(key, nav, root, filter, now);
}

/// The step (column, row) that a key moves by in the treemap: Right/`l`, Left/`h`,
/// Down/`j`, Up/`k`.
pub open spec fn treemap_step(k: KeyCode) -> Option<(int, int)> {
    if is_down(k) {
        Some((0, 1))
    } else if is_up(k) {
        Some((0, -1))
    } else if k == KeyCode::Right || is_char(k, 'l') {
        Some((1, 0))
    } else if k == KeyCode::Left || is_char(k, 'h') {
        Some((-1, 0))
    } else {
        None
    }
}

/// Whether the treemap's layout is as it was.
pub open spec fn same_layout(a: TreemapState, b: TreemapState) -> bool {
    a.cached_rects@ == b.cached_rects@ && a.cached_area == b.cached_area && a.cached_visible@
        == b.cached_visible@
}

/// What a key does in the treemap view: the selection is first kept on a drawn child;
/// then the arrows (and `hjkl`) move it to the child whose rectangle lies that way,
/// Enter drills in and Backspace drills out (both dropping the layout).
pub open spec fn treemap_key_step(
    k: KeyCode,
    root: DiskNode,
    filter: Option<&FilterCriteria>,
    now: int,
    m: NavModel,
    t: TreemapState,
    new_m: NavModel,
    new_t: TreemapState,
) -> bool {
    let s1 = treemap_sync_spec(m, root, filter, now);
    match node_by_names(root, s1.dir) {
        None => new_m == s1 && same_layout(new_t, t),
        Some(v) => {
            let found = first_named(v.children@, s1.selected);
            let sel = if found >= 0 {
                found as usize
            } else {
                0usize
            };
            match treemap_step(k) {
                Some((dx, dy)) => {
                    let n = navigate_spec(t.cached_rects@, sel, dx, dy);
                    &&& same_layout(new_t, t)
                    &&& new_m == if n < v.children@.len() {
                        NavModel { dir: s1.dir, selected: v.children@[n as int].name@ }
                    } else {
                        s1
                    }
                },
                None => if k == KeyCode::Enter {
                    new_m == drill_in_spec(s1, root, filter, now) && new_t.cached_rects@.len() == 0
                        && new_t.cached_visible@.len() == 0
                } else if k == KeyCode::Backspace {
                    new_m == drill_out_spec(s1, root, filter, now) && new_t.cached_rects@.len() == 0
                        && new_t.cached_visible@.len() == 0
                } else {
                    new_m == s1 && same_layout(new_t, t)
                },
            }
        },
    }
}

/// Handle a key in the treemap view, with the clock reading `now`.
pub fn handle_treemap_key_at(
    key: KeyPress,
    nav: &mut ViewNavState,
    root: &DiskNode,
    treemap_state: &mut TreemapState,
    filter: Option<&FilterCriteria>,
    now: i128,
)
    requires
        opt_filter_ok(filter),
        rects_fit(old(treemap_state).cached_rects@),
    ensures
        treemap_key_step(
            key.code,
            *root,
            filter,
            now as int,
            old(nav)@,
            *old(treemap_state),
            final(nav)@,
            *final(treemap_state),
        ),
{
    sync_treemap_selection_at(nav, root, filter, now);
    let view_node = match nav.resolve_view_root(root) {
        Some(v) => v,
        None => {
            return;
        },
    };
    let selected_idx = match position_of_name(view_node.children.as_slice(), nav.selected_name.as_str()) {
        Some(i) => i,
        None => 0,
    };
    let k = key.code;
    let step: Option<(i16, i16)> = if k == KeyCode::Char('j') || k == KeyCode::Down {
        Some((0, 1))
    } else if k == KeyCode::Char('k') || k == KeyCode::Up {
        Some((0, -1))
    } else if k == KeyCode::Right || k == KeyCode::Char('l') {
        Some((1, 0))
    } else if k == KeyCode::Left || k == KeyCode::Char('h') {
        Some((-1, 0))
    } else {
        None
    };
    match step {
        Some((dx, dy)) => {
            let new_idx = treemap_state.navigate(selected_idx, dx, dy);
            if new_idx < view_node.children.len() {
                nav.selected_name = view_node.children[new_idx].name.clone();
            }
        },
        None => {
            if k == KeyCode::Enter {
                nav.drill_in_at(root, filter, now);
                treemap_state.invalidate();
            } else if k == KeyCode::Backspace {
                nav.drill_out_at(root, filter, now);
                treemap_state.invalidate();
            }
        },
    }
}

/// Handle a key in the treemap view. A modification-time filter reads the clock.
pub fn handle_treemap_key(
    key: KeyPress,
    nav: &mut ViewNavState,
    root: &DiskNode,
    treemap_state: &mut TreemapState,
    filter: Option<&FilterCriteria>,
)
    requires
        opt_filter_ok(filter),
        rects_fit(old(treemap_state).cached_rects@),
    ensures
        exists|t: i128|
            clock_reading(filter, t) && treemap_key_step(
                key.code,
                *root,
                filter,
                t as int,
                old(nav)@,
                *old(treemap_state),
                final(nav)@,
                *final(treemap_state),
            ),
{
    let now = clock_for(filter);
    handle_treemap_key_at(key, nav, root, treemap_state, filter, now);
}

} // verus!
