use vstd::prelude::*;

use crate::model::node::{DiskNode, NodeType};
use crate::strings::{copy_names, first_index, lemma_first_index_from, position_in, texts};
use crate::tui::filter::{opt_filter_ok, FilterCriteria};
use crate::tui::views::tree::{
    clock_for, clock_reading, filter_visible_child_indices_at, lemma_visible_from,
    named_selection_path, node_by_names, path_indices_for_named_selection, visible_children,
    walk_name_path, walk_names,
};

verus! {

/// Shared navigation state for non-tree views (bar, treemap, sunburst).
/// Uses stable name paths so sort/delete do not retarget selection.
pub struct ViewNavState {
    /// Path of directory names from the scan root down to the viewed directory (empty = root).
    pub view_dir_name_path: Vec<String>,
    /// Highlighted child name under the current view root.
    pub selected_name: String,
}

/// What a `ViewNavState` says: the viewed directory's name path and the selected name.
pub struct NavModel {
    pub dir: Seq<Seq<char>>,
    pub selected: Seq<char>,
}

impl View for ViewNavState {
    type V = NavModel;

    open spec fn view(&self) -> NavModel {
        NavModel { dir: texts(self.view_dir_name_path@), selected: self.selected_name@ }
    }
}

/// The names of the children of `v` that show up under the filter, in order.
pub open spec fn visible_names(v: DiskNode, filter: Option<&FilterCriteria>, now: int) -> Seq<
    Seq<char>,
> {
    visible_children(v, filter, now).map_values(|i: usize| v.children@[i as int].name@)
}

/// `m` after `ensure_valid_selection`: an unreachable view directory resets to the root
/// with nothing selected; otherwise the selection stays if it is a visible child's name,
/// becomes the first visible child's name if there is one, else is cleared.
pub open spec fn ensure_valid_spec(
    m: NavModel,
    root: DiskNode,
    filter: Option<&FilterCriteria>,
    now: int,
) -> NavModel {
    match node_by_names(root, m.dir) {
        None => NavModel { dir: Seq::empty(), selected: Seq::empty() },
        Some(v) => {
            let names = visible_names(v, filter, now);
            if names.len() == 0 {
                NavModel { dir: m.dir, selected: Seq::empty() }
            } else if first_index(names, m.selected) >= 0 {
                m
            } else {
                NavModel { dir: m.dir, selected: names[0] }
            }
        },
    }
}

/// `m` after moving the selection `step` places (+1 or -1) through the visible children,
/// starting from the selection's place (the first place when it is not among them) and
/// stopping at either end.
pub open spec fn move_spec(
    m: NavModel,
    root: DiskNode,
    filter: Option<&FilterCriteria>,
    now: int,
    forward: bool,
) -> NavModel {
    match node_by_names(root, m.dir) {
        None => m,
        Some(v) => {
            let names = visible_names(v, filter, now);
            if names.len() == 0 {
                m
            } else {
                let found = first_index(names, m.selected);
                let pos = if found < 0 {
                    0
                } else {
                    found
                };
                let target = if forward {
                    if pos + 1 < names.len() - 1 {
                        pos + 1
                    } else {
                        names.len() - 1
                    }
                } else {
                    if pos > 0 {
                        pos - 1
                    } else {
                        0
                    }
                };
                NavModel { dir: m.dir, selected: names[target] }
            }
        },
    }
}

/// `m` after `drill_in`: when the selected visible child is a directory with children,
/// the view descends into it and selects its first visible child (or nothing).
pub open spec fn drill_in_spec(
    m: NavModel,
    root: DiskNode,
    filter: Option<&FilterCriteria>,
    now: int,
) -> NavModel {
    match node_by_names(root, m.dir) {
        None => m,
        Some(v) => {
            let k = first_index(visible_names(v, filter, now), m.selected);
            if k < 0 {
                m
            } else {
                let child = v.children@[visible_children(v, filter, now)[k] as int];
                if child.node_type == NodeType::Dir && child.children@.len() > 0 {
                    let inner = visible_names(child, filter, now);
                    NavModel {
                        dir: m.dir.push(child.name@),
                        selected: if inner.len() > 0 {
                            inner[0]
                        } else {
                            Seq::empty()
                        },
                    }
                } else {
                    m
                }
            }
        },
    }
}

/// `m` after `drill_out`: the view goes up one directory, selecting the directory it
/// left, and the selection is then made valid.
pub open spec fn drill_out_spec(
    m: NavModel,
    root: DiskNode,
    filter: Option<&FilterCriteria>,
    now: int,
) -> NavModel {
    if m.dir.len() == 0 {
        m
    } else {
        ensure_valid_spec(
            NavModel { dir: m.dir.drop_last(), selected: m.dir.last() },
            root,
            filter,
            now,
        )
    }
}

/// Once the view directory exists, making the selection valid a second time changes
/// nothing.
pub proof fn lemma_ensure_valid_idempotent(
    m: NavModel,
    root: DiskNode,
    filter: Option<&FilterCriteria>,
    now: int,
)
    requires
        node_by_names(root, m.dir) is Some,
    ensures
        ensure_valid_spec(ensure_valid_spec(m, root, filter, now), root, filter, now)
            == ensure_valid_spec(m, root, filter, now),
{
    let v = node_by_names(root, m.dir)->0;
    let names = visible_names(v, filter, now);
    let once = ensure_valid_spec(m, root, filter, now);
    assert(once.dir == m.dir);
    if names.len() > 0 && first_index(names, m.selected) < 0 {
        assert(first_index(names, names[0]) == 0);
    }
}

/// Once the view directory exists, making the selection valid keeps that directory and
/// leaves the selection on a visible child, or empty exactly when no child is visible.
pub proof fn lemma_ensure_valid_selects_visible(
    m: NavModel,
    root: DiskNode,
    filter: Option<&FilterCriteria>,
    now: int,
)
    requires
        node_by_names(root, m.dir) is Some,
    ensures
        ({
            let names = visible_names(node_by_names(root, m.dir)->0, filter, now);
            let r = ensure_valid_spec(m, root, filter, now);
            &&& r.dir == m.dir
            &&& names.len() == 0 ==> r.selected.len() == 0
            &&& names.len() > 0 ==> names.contains(r.selected)
        }),
{
    let names = visible_names(node_by_names(root, m.dir)->0, filter, now);
    lemma_first_index_from(names, m.selected, 0);
    if names.len() > 0 {
        let k = first_index(names, m.selected);
        if k >= 0 {
            assert(names[k] == m.selected);
        } else {
            assert(names[0] == names[0]);
        }
    }
}

/// Drilling out right after a drill-in that descended brings back the view directory and
/// the selection from before it.
pub proof fn lemma_drill_in_then_out(
    m: NavModel,
    root: DiskNode,
    filter: Option<&FilterCriteria>,
    now: int,
)
    requires
        drill_in_spec(m, root, filter, now).dir.len() > m.dir.len(),
    ensures
        drill_out_spec(drill_in_spec(m, root, filter, now), root, filter, now) == m,
{
    let v = node_by_names(root, m.dir)->0;
    let names = visible_names(v, filter, now);
    let k = first_index(names, m.selected);
    lemma_first_index_from(names, m.selected, 0);
    let child = v.children@[visible_children(v, filter, now)[k] as int];
    let inside = drill_in_spec(m, root, filter, now);
    assert(inside.dir == m.dir.push(child.name@));
    assert(inside.dir.drop_last() =~= m.dir);
    assert(inside.dir.last() == m.selected);
    let back = NavModel { dir: inside.dir.drop_last(), selected: inside.dir.last() };
    assert(back.dir =~= m.dir);
    assert(back == m);
}

/// The names of the children `indices` of `node`, in order.
fn names_of(node: &DiskNode, indices: &Vec<usize>) -> (names: Vec<String>)
    requires
        forall|k: int| 0 <= k < indices@.len() ==> #[trigger] indices@[k] < node.children@.len(),
    ensures
        texts(names@) == indices@.map_values(|i: usize| node.children@[i as int].name@),
{
    let mut names: Vec<String> = Vec::new();
    let mut j: usize = 0;
    while j < indices.len()
        invariant
            j <= indices@.len(),
            forall|k: int| 0 <= k < indices@.len() ==> #[trigger] indices@[k] < node.children@.len(),
            names@.len() == j,
            forall|k: int|
                0 <= k < j ==> (#[trigger] names@[k])@ == node.children@[indices@[k] as int].name@,
        decreases indices@.len() - j,
    {
        let c = node.children[indices[j]].name.clone();
        names.push(c);
        j = j + 1;
    }
    proof {
        assert(texts(names@) =~= indices@.map_values(|i: usize| node.children@[i as int].name@));
    }
    names
}

/// The visible children's indices and names under the view directory `node`.
fn visible_child_names(node: &DiskNode, filter: Option<&FilterCriteria>, now: i128) -> (r: (
    Vec<usize>,
    Vec<String>,
))
    requires
        opt_filter_ok(filter),
    ensures
        r.0@ == visible_children(*node, filter, now as int),
        texts(r.1@) == visible_names(*node, filter, now as int),
        forall|k: int| 0 <= k < r.0@.len() ==> #[trigger] r.0@[k] < node.children@.len(),
{
    let visible = filter_visible_child_indices_at(node, filter, now);
    let _n = node.children.len();
    proof {
        lemma_visible_from(node.children@, 0, filter, now as int);
    }
    let names = names_of(node, &visible);
    (visible, names)
}

impl ViewNavState {
    pub fn new() -> (s: Self)
        ensures
            s@.dir.len() == 0,
            s@.selected.len() == 0,
    {
        let s = ViewNavState { view_dir_name_path: Vec::new(), selected_name: String::new() };
        proof {
            assert(texts(s.view_dir_name_path@) =~= Seq::<Seq<char>>::empty());
        }
        s
    }

    /// Resolve the view root node from the scan root.
    pub fn resolve_view_root<'a>(&self, root: &'a DiskNode) -> (r: Option<&'a DiskNode>)
        ensures
            match node_by_names(*root, self@.dir) {
                Some(v) => r matches Some(n) && *n == v,
                None => r is None,
            },
    {
        match walk_name_path(root, self.view_dir_name_path.as_slice()) {
            Some((_, node)) => Some(node),
            None => None,
        }
    }

    /// Path indices from scan root to the selected node (for FS ops, info, delete).
    pub fn path_indices(&self, root: &DiskNode) -> (r: Option<Vec<usize>>)
        ensures
            match named_selection_path(*root, self@.dir, self@.selected) {
                Some(p) => r matches Some(v) && v@ == p,
                None => r is None,
            },
    {
        path_indices_for_named_selection(
            root,
            self.view_dir_name_path.as_slice(),
            self.selected_name.as_str(),
        )
    }

    /// Keep selection valid after filter changes, tree mutation, or first paint, with the
    /// clock reading `now`.
    pub fn ensure_valid_selection_at(
        &mut self,
        root: &DiskNode,
        filter: Option<&FilterCriteria>,
        now: i128,
    )
        requires
            opt_filter_ok(filter),
        ensures
            final(self)@ == ensure_valid_spec(old(self)@, *root, filter, now as int),
    {
        match self.resolve_view_root(root) {
            None => {
                self.view_dir_name_path = Vec::new();
                self.selected_name = String::new();
                proof {
                    assert(texts(self.view_dir_name_path@) =~= Seq::<Seq<char>>::empty());
                }
            },
            Some(view_node) => {
                let (_, names) = visible_child_names(view_node, filter, now);
                if names.len() == 0 {
                    self.selected_name = String::new();
                } else {
                    match position_in(names.as_slice(), self.selected_name.as_str()) {
                        Some(_) => {},
                        None => {
                            self.selected_name = names[0].clone();
                        },
                    }
                }
            },
        }
    }

    /// Keep selection valid after filter changes, tree mutation, or first paint.
    /// A modification-time filter reads the clock.
    pub fn ensure_valid_selection(&mut self, root: &DiskNode, filter: Option<&FilterCriteria>)
        requires
            opt_filter_ok(filter),
        ensures
            exists|t: i128|
                clock_reading(filter, t) && final(self)@ == ensure_valid_spec(
                    old(self)@,
                    *root,
                    filter,
                    t as int,
                ),
    {
        let now = clock_for(filter);
        self.ensure_valid_selection_at(root, filter, now);
    }

    fn move_at(&mut self, root: &DiskNode, filter: Option<&FilterCriteria>, now: i128, forward: bool)
        requires
            opt_filter_ok(filter),
        ensures
            final(self)@ == move_spec(old(self)@, *root, filter, now as int, forward),
    {
        match self.resolve_view_root(root) {
            None => {},
            Some(view_node) => {
                let (_, names) = visible_child_names(view_node, filter, now);
                if names.len() == 0 {
                    return;
                }
                let pos = match position_in(names.as_slice(), self.selected_name.as_str()) {
                    Some(p) => p,
                    None => 0,
                };
                proof {
                    lemma_first_index_from(texts(names@), self.selected_name@, 0);
                }
                let target = if forward {
                    if pos + 1 < names.len() - 1 {
                        pos + 1
                    } else {
                        names.len() - 1
                    }
                } else {
                    if pos > 0 {
                        pos - 1
                    } else {
                        0
                    }
                };
                self.selected_name = names[target].clone();
            },
        }
    }

    /// Select the next visible child, with the clock reading `now`.
    pub fn move_next_at(&mut self, root: &DiskNode, filter: Option<&FilterCriteria>, now: i128)
        requires
            opt_filter_ok(filter),
        ensures
            final(self)@ == move_spec(old(self)@, *root, filter, now as int, true),
    {
        self.move_at(root, filter, now, true);
    }

    /// Select the next visible child. A modification-time filter reads the clock.
    pub fn move_next(&mut self, root: &DiskNode, filter: Option<&FilterCriteria>)
        requires
            opt_filter_ok(filter),
        ensures
            exists|t: i128|
                clock_reading(filter, t) && final(self)@ == move_spec(
                    old(self)@,
                    *root,
                    filter,
                    t as int,
                    true,
                ),
    {
        let now = clock_for(filter);
        self.move_at(root, filter, now, true);
    }

    /// Select the previous visible child, with the clock reading `now`.
    pub fn move_prev_at(&mut self, root: &DiskNode, filter: Option<&FilterCriteria>, now: i128)
        requires
            opt_filter_ok(filter),
        ensures
            final(self)@ == move_spec(old(self)@, *root, filter, now as int, false),
    {
        self.move_at(root, filter, now, false);
    }

    /// Select the previous visible child. A modification-time filter reads the clock.
    pub fn move_prev(&mut self, root: &DiskNode, filter: Option<&FilterCriteria>)
        requires
            opt_filter_ok(filter),
        ensures
            exists|t: i128|
                clock_reading(filter, t) && final(self)@ == move_spec(
                    old(self)@,
                    *root,
                    filter,
                    t as int,
                    false,
                ),
    {
        let now = clock_for(filter);
        self.move_at(root, filter, now, false);
    }

    fn pick_first_visible_child(&mut self, node: &DiskNode, filter: Option<&FilterCriteria>, now: i128)
        requires
            opt_filter_ok(filter),
        ensures
            final(self).view_dir_name_path@ == old(self).view_dir_name_path@,
            final(self).selected_name@ == (if visible_names(*node, filter, now as int).len() > 0 {
                visible_names(*node, filter, now as int)[0]
            } else {
                Seq::empty()
            }),
    {
        let (_, names) = visible_child_names(node, filter, now);
        if names.len() > 0 {
            self.selected_name = names[0].clone();
        } else {
            self.selected_name = String::new();
        }
    }

    /// Drill into the selected child if it's a directory with children, with the clock
    /// reading `now`.
    pub fn drill_in_at(&mut self, root: &DiskNode, filter: Option<&FilterCriteria>, now: i128)
        requires
            opt_filter_ok(filter),
        ensures
            final(self)@ == drill_in_spec(old(self)@, *root, filter, now as int),
    {
        match self.resolve_view_root(root) {
            None => {},
            Some(view_node) => {
                let (visible, names) = visible_child_names(view_node, filter, now);
                match position_in(names.as_slice(), self.selected_name.as_str()) {
                    None => {},
                    Some(k) => {
                        proof {
                            lemma_first_index_from(texts(names@), self.selected_name@, 0);
                        }
                        let child = &view_node.children[visible[k]];
                        if child.node_type == NodeType::Dir && child.children.len() > 0 {
                            let ghost dir_before = texts(self.view_dir_name_path@);
                            self.view_dir_name_path.push(child.name.clone());
                            proof {
                                assert(texts(self.view_dir_name_path@) =~= dir_before.push(
                                    child.name@,
                                ));
                            }
                            self.pick_first_visible_child(child, filter, now);
                        }
                    },
                }
            },
        }
    }

    /// Drill into the selected child if it's a directory with children.
    /// A modification-time filter reads the clock.
    pub fn drill_in(&mut self, root: &DiskNode, filter: Option<&FilterCriteria>)
        requires
            opt_filter_ok(filter),
        ensures
            exists|t: i128|
                clock_reading(filter, t) && final(self)@ == drill_in_spec(
                    old(self)@,
                    *root,
                    filter,
                    t as int,
                ),
    {
        let now = clock_for(filter);
        self.drill_in_at(root, filter, now);
    }

    /// Drill out to parent directory, with the clock reading `now`.
    pub fn drill_out_at(&mut self, root: &DiskNode, filter: Option<&FilterCriteria>, now: i128)
        requires
            opt_filter_ok(filter),
        ensures
            final(self)@ == drill_out_spec(old(self)@, *root, filter, now as int),
    {
        let ghost dir_before = texts(self.view_dir_name_path@);
        match self.view_dir_name_path.pop() {
            Some(popped) => {
                proof {
                    assert(texts(self.view_dir_name_path@) =~= dir_before.drop_last());
                }
                self.selected_name = popped;
                self.ensure_valid_selection_at(root, filter, now);
            },
            None => {},
        }
    }

    /// Drill out to parent directory. A modification-time filter reads the clock.
    pub fn drill_out(&mut self, root: &DiskNode, filter: Option<&FilterCriteria>)
        requires
            opt_filter_ok(filter),
        ensures
            exists|t: i128|
                clock_reading(filter, t) && final(self)@ == drill_out_spec(
                    old(self)@,
                    *root,
                    filter,
                    t as int,
                ),
    {
        let now = clock_for(filter);
        self.drill_out_at(root, filter, now);
    }
}

} // verus!
