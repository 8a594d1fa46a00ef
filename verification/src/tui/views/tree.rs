use vstd::prelude::*;

use crate::model::node::{DiskNode, NodeType};
use crate::model::time::{now_nanos, offset_nanos, EpochOffset};
use crate::strings::{chars_of, copy_indices, copy_names, same_names, same_text, texts};
use vstd::string::StringExecFns;
use crate::tui::filter::{filter_ok, matches_spec, opt_filter_ok, reads_clock, FilterCriteria};

verus! {

// ---------------------------------------------------------------------------
// Sets of name paths
// ---------------------------------------------------------------------------

/// A set of name paths (each a list of child names from the scan root), such as the
/// directories expanded in the tree view.
pub struct NamePathSet {
    paths: Vec<Vec<String>>,
}

/// The name paths held by a sequence of name lists.
pub open spec fn path_set(paths: Seq<Vec<String>>) -> Set<Seq<Seq<char>>> {
    Set::new(
        |p: Seq<Seq<char>>|
            exists|i: int| 0 <= i < paths.len() && texts(#[trigger] paths[i]@) == p,
    )
}

proof fn lemma_path_set_push(paths: Seq<Vec<String>>, x: Vec<String>)
    ensures
        path_set(paths.push(x)) == path_set(paths).insert(texts(x@)),
{
    let s2 = paths.push(x);
    assert forall|p: Seq<Seq<char>>| path_set(s2).contains(p) <==> path_set(paths).insert(
        texts(x@),
    ).contains(p) by {
        if path_set(paths).contains(p) {
            let i = choose|i: int| 0 <= i < paths.len() && texts(#[trigger] paths[i]@) == p;
            assert(s2[i] == paths[i]);
        }
        if p == texts(x@) {
            assert(s2[paths.len() as int] == x);
        }
        if path_set(s2).contains(p) {
            let i = choose|i: int| 0 <= i < s2.len() && texts(#[trigger] s2[i]@) == p;
            if i < paths.len() {
                assert(paths[i] == s2[i]);
            }
        }
    }
    assert(path_set(s2) =~= path_set(paths).insert(texts(x@)));
}

proof fn lemma_path_set_empty(paths: Seq<Vec<String>>)
    requires
        paths.len() == 0,
    ensures
        path_set(paths) == Set::<Seq<Seq<char>>>::empty(),
{
    assert(path_set(paths) =~= Set::<Seq<Seq<char>>>::empty());
}

impl View for NamePathSet {
    type V = Set<Seq<Seq<char>>>;

    closed spec fn view(&self) -> Set<Seq<Seq<char>>> {
        path_set(self.paths@)
    }
}

impl NamePathSet {
    pub fn new() -> (s: Self)
        ensures
            s@ == Set::<Seq<Seq<char>>>::empty(),
    {
        let s = NamePathSet { paths: Vec::new() };
        proof {
            lemma_path_set_empty(s.paths@);
        }
        s
    }

    fn position(&self, names: &[String]) -> (r: Option<usize>)
        ensures
            match r {
                Some(i) => i < self.paths@.len() && texts(self.paths@[i as int]@) == texts(names@),
                None => forall|i: int|
                    0 <= i < self.paths@.len() ==> texts(#[trigger] self.paths@[i]@) != texts(
                        names@,
                    ),
            },
    {
        let mut i: usize = 0;
        while i < self.paths.len()
            invariant
                i <= self.paths@.len(),
                forall|k: int| 0 <= k < i ==> texts(#[trigger] self.paths@[k]@) != texts(names@),
            decreases self.paths@.len() - i,
        {
            if same_names(self.paths[i].as_slice(), names) {
                return Some(i);
            }
            i = i + 1;
        }
        None
    }

    /// Whether `names` is in the set.
    pub fn contains(&self, names: &[String]) -> (r: bool)
        ensures
            r == self@.contains(texts(names@)),
    {
        match self.position(names) {
            Some(i) => {
                proof {
                    assert(path_set(self.paths@).contains(texts(names@)));
                }
                true
            },
            None => false,
        }
    }

    /// Adds `names`; true when it was not in the set before.
    pub fn insert(&mut self, names: Vec<String>) -> (r: bool)
        ensures
            final(self)@ == old(self)@.insert(texts(names@)),
            r == !old(self)@.contains(texts(names@)),
    {
        if self.contains(names.as_slice()) {
            proof {
                assert(self@ =~= old(self)@.insert(texts(names@)));
            }
            return false;
        }
        proof {
            lemma_path_set_push(self.paths@, names);
        }
        self.paths.push(names);
        true
    }

    /// Removes `names`; true when it was in the set.
    pub fn remove(&mut self, names: &[String]) -> (r: bool)
        ensures
            final(self)@ == old(self)@.remove(texts(names@)),
            r == old(self)@.contains(texts(names@)),
    {
        let ghost key = texts(names@);
        let was_in = self.contains(names);
        let mut kept: Vec<Vec<String>> = Vec::new();
        let mut old_paths: Vec<Vec<String>> = Vec::new();
        std::mem::swap(&mut old_paths, &mut self.paths);
        let mut i: usize = 0;
        proof {
            lemma_path_set_empty(kept@);
            lemma_path_set_empty(old_paths@.subrange(0, 0));
            assert(path_set(kept@) =~= path_set(old_paths@.subrange(0, 0)).remove(key));
        }
        while i < old_paths.len()
            invariant
                i <= old_paths@.len(),
                old_paths@ == old(self).paths@,
                key == texts(names@),
                path_set(kept@) == path_set(old_paths@.subrange(0, i as int)).remove(key),
            decreases old_paths@.len() - i,
        {
            let same = same_names(old_paths[i].as_slice(), names);
            proof {
                assert(old_paths@.subrange(0, i as int + 1) =~= old_paths@.subrange(0, i as int).push(
                    old_paths@[i as int],
                ));
                lemma_path_set_push(old_paths@.subrange(0, i as int), old_paths@[i as int]);
            }
            if !same {
                let copy = copy_names(old_paths[i].as_slice());
                proof {
                    assert(texts(copy@) == texts(old_paths@[i as int]@));
                    assert(texts(copy@) != key);
                    lemma_path_set_push(kept@, copy);
                }
                kept.push(copy);
                proof {
                    assert(path_set(kept@) =~= path_set(
                        old_paths@.subrange(0, i as int + 1),
                    ).remove(key));
                }
            } else {
                proof {
                    assert(texts(old_paths@[i as int]@) == key);
                    assert(path_set(kept@) =~= path_set(
                        old_paths@.subrange(0, i as int + 1),
                    ).remove(key));
                }
            }
            i = i + 1;
        }
        proof {
            assert(old_paths@.subrange(0, i as int) =~= old_paths@);
        }
        self.paths = kept;
        was_in
    }
}

// ---------------------------------------------------------------------------
// Flattened rows
// ---------------------------------------------------------------------------

/// A single visible row in the flattened tree.
#[derive(Debug, Clone)]
pub struct FlatRow {
    pub depth: usize,
    pub name: String,
    pub size: u64,
    pub node_type: NodeType,
    pub has_children: bool,
    pub is_expanded: bool,
    /// Index path from root to this node (e.g., [0, 2, 1] = root.children[0].children[2].children[1]).
    pub path_indices: Vec<usize>,
    /// Name path from root to this node (stable across sort/delete).
    pub name_path: Vec<String>,
}

/// What a `FlatRow` says, with its texts as character sequences.
pub struct RowModel {
    pub depth: usize,
    pub name: Seq<char>,
    pub size: u64,
    pub node_type: NodeType,
    pub has_children: bool,
    pub is_expanded: bool,
    pub path_indices: Seq<usize>,
    pub name_path: Seq<Seq<char>>,
}

impl View for FlatRow {
    type V = RowModel;

    open spec fn view(&self) -> RowModel {
        RowModel {
            depth: self.depth,
            name: self.name@,
            size: self.size,
            node_type: self.node_type,
            has_children: self.has_children,
            is_expanded: self.is_expanded,
            path_indices: self.path_indices@,
            name_path: texts(self.name_path@),
        }
    }
}

/// The models of a sequence of rows.
pub open spec fn rows_view(rows: Seq<FlatRow>) -> Seq<RowModel> {
    rows.map_values(|r: FlatRow| r@)
}

/// Whether a node has a descendant that is not a directory and passes `f`.
pub open spec fn has_match(node: DiskNode, f: FilterCriteria, now: int) -> bool
    decreases node,
{
    any_match(node.children@, f, now)
}

/// Whether one of the subtrees `s` holds a non-directory that passes `f`.
pub open spec fn any_match(s: Seq<DiskNode>, f: FilterCriteria, now: int) -> bool
    decreases s,
{
    if s.len() == 0 {
        false
    } else {
        any_match(s.drop_last(), f, now) || (s.last().node_type != NodeType::Dir && matches_spec(
            f,
            s.last(),
            now,
        )) || (s.last().node_type == NodeType::Dir && has_match(s.last(), f, now))
    }
}

/// Whether a child shows up under the filter: everything shows without a filter;
/// with one, the child must pass it, and a directory must hold a passing descendant.
pub open spec fn shown(child: DiskNode, filter: Option<&FilterCriteria>, now: int) -> bool {
    match filter {
        None => true,
        Some(f) => matches_spec(*f, child, now) && (child.node_type == NodeType::Dir ==> has_match(
            child,
            *f,
            now,
        )),
    }
}

/// The row for child `i` of a node whose index path is `pi` and name path `pn`.
pub open spec fn row_for(
    child: DiskNode,
    i: int,
    expanded: Set<Seq<Seq<char>>>,
    pi: Seq<usize>,
    pn: Seq<Seq<char>>,
) -> RowModel {
    RowModel {
        depth: child.depth,
        name: child.name@,
        size: child.size,
        node_type: child.node_type,
        has_children: child.children@.len() > 0,
        is_expanded: expanded.contains(pn.push(child.name@)),
        path_indices: pi.push(i as usize),
        name_path: pn.push(child.name@),
    }
}

/// The rows of `children[i..]`, in order, each followed by the rows of its own children
/// when it is expanded.
pub open spec fn flatten_from(
    children: Seq<DiskNode>,
    i: int,
    expanded: Set<Seq<Seq<char>>>,
    filter: Option<&FilterCriteria>,
    now: int,
    pi: Seq<usize>,
    pn: Seq<Seq<char>>,
) -> Seq<RowModel>
    decreases children, children.len() - i,
{
    if i < 0 || i >= children.len() {
        Seq::empty()
    } else {
        child_block(children[i], i, expanded, filter, now, pi, pn) + flatten_from(
            children,
            i + 1,
            expanded,
            filter,
            now,
            pi,
            pn,
        )
    }
}

/// The rows that child `i` contributes: none when the filter hides it, else its own row
/// followed, when it is expanded, by the rows of its children.
pub open spec fn child_block(
    child: DiskNode,
    i: int,
    expanded: Set<Seq<Seq<char>>>,
    filter: Option<&FilterCriteria>,
    now: int,
    pi: Seq<usize>,
    pn: Seq<Seq<char>>,
) -> Seq<RowModel>
    decreases child, 0int,
{
    if !shown(child, filter, now) {
        Seq::empty()
    } else {
        let np = pn.push(child.name@);
        let ip = pi.push(i as usize);
        seq![row_for(child, i, expanded, pi, pn)] + if expanded.contains(np) {
            flatten_from(child.children@, 0, expanded, filter, now, ip, np)
        } else {
            Seq::empty()
        }
    }
}

/// The clock value a filter-taking operation works with: 0 when the filter does not read
/// the clock, else a reading of it.
pub open spec fn clock_reading(filter: Option<&FilterCriteria>, t: i128) -> bool {
    match filter {
        Some(f) if reads_clock(*f) => exists|o: EpochOffset| t as int == offset_nanos(o),
        _ => t == 0,
    }
}

/// Reads the clock when the filter needs it.
pub fn clock_for(filter: Option<&FilterCriteria>) -> (t: i128)
    ensures
        clock_reading(filter, t),
{
    match filter {
        Some(f) => match f {
            FilterCriteria::ModifiedWithin(_) => now_nanos(),
            _ => 0,
        },
        None => 0,
    }
}

/// Check if a directory has any descendant that matches the filter.
fn has_matching_descendant(node: &DiskNode, filter: &FilterCriteria, now: i128) -> (r: bool)
    requires
        filter_ok(*filter),
    ensures
        r == has_match(*node, *filter, now as int),
    decreases node,
{
    let mut i: usize = 0;
    while i < node.children.len()
        invariant
            i <= node.children@.len(),
            filter_ok(*filter),
            !any_match(node.children@.subrange(0, i as int), *filter, now as int),
        decreases node.children@.len() - i,
    {
        let child = &node.children[i];
        proof {
            assert(node.children@.subrange(0, i as int + 1).drop_last() =~= node.children@.subrange(
                0,
                i as int,
            ));
            assert(decreases_to!(node => node.children@[i as int]));
        }
        if child.node_type != NodeType::Dir && filter.matches_at(child, now) {
            proof {
                lemma_any_match_extends(node.children@, *filter, now as int, i as int + 1);
            }
            return true;
        }
        if child.node_type == NodeType::Dir && has_matching_descendant(child, filter, now) {
            proof {
                lemma_any_match_extends(node.children@, *filter, now as int, i as int + 1);
            }
            return true;
        }
        i = i + 1;
    }
    proof {
        assert(node.children@.subrange(0, i as int) =~= node.children@);
    }
    false
}

proof fn lemma_any_match_extends(s: Seq<DiskNode>, f: FilterCriteria, now: int, j: int)
    requires
        0 <= j <= s.len(),
        any_match(s.subrange(0, j), f, now),
    ensures
        any_match(s, f, now),
    decreases s.len() - j,
{
    if j < s.len() {
        assert(s.subrange(0, j + 1).drop_last() =~= s.subrange(0, j));
        lemma_any_match_extends(s, f, now, j + 1);
    } else {
        assert(s.subrange(0, j) =~= s);
    }
}

fn flatten_children(
    children: &[DiskNode],
    expanded: &NamePathSet,
    filter: Option<&FilterCriteria>,
    now: i128,
    parent_indices: &mut Vec<usize>,
    parent_names: &mut Vec<String>,
    rows: &mut Vec<FlatRow>,
)
    requires
        opt_filter_ok(filter),
    ensures
        final(parent_indices)@ == old(parent_indices)@,
        texts(final(parent_names)@) == texts(old(parent_names)@),
        rows_view(final(rows)@) == rows_view(old(rows)@) + flatten_from(
            children@,
            0,
            expanded@,
            filter,
            now as int,
            old(parent_indices)@,
            texts(old(parent_names)@),
        ),
    decreases children@,
{
    let ghost pi = parent_indices@;
    let ghost pn = texts(parent_names@);
    let ghost start = rows_view(rows@);
    let mut i: usize = 0;
    proof {
        assert(rows_view(rows@) + flatten_from(children@, 0, expanded@, filter, now as int, pi, pn)
            =~= start + flatten_from(children@, 0, expanded@, filter, now as int, pi, pn));
    }
    while i < children.len()
        invariant
            i <= children@.len(),
            opt_filter_ok(filter),
            parent_indices@ == pi,
            texts(parent_names@) == pn,
            rows_view(rows@) + flatten_from(children@, i as int, expanded@, filter, now as int, pi, pn)
                == start + flatten_from(children@, 0, expanded@, filter, now as int, pi, pn),
        decreases children@.len() - i,
    {
        let child = &children[i];
        let ghost before = rows_view(rows@);
        let ghost rest = flatten_from(children@, i as int + 1, expanded@, filter, now as int, pi, pn);
        let ghost block = child_block(children@[i as int], i as int, expanded@, filter, now as int, pi, pn);
        proof {
            assert(flatten_from(children@, i as int, expanded@, filter, now as int, pi, pn) == block
                + rest);
            assert(decreases_to!(children@ => children@[i as int].children@));
        }
        let visible = match filter {
            Some(f) => {
                if !f.matches_at(child, now) {
                    false
                } else if child.node_type == NodeType::Dir && !has_matching_descendant(
                    child,
                    f,
                    now,
                ) {
                    false
                } else {
                    true
                }
            },
            None => true,
        };
        if visible {
            parent_indices.push(i);
            parent_names.push(child.name.clone());
            let ghost np = pn.push(child.name@);
            let ghost ip = pi.push(i);
            proof {
                assert(texts(parent_names@) =~= np);
            }
            let path_indices = copy_indices(parent_indices.as_slice());
            let name_path = copy_names(parent_names.as_slice());
            let is_expanded = expanded.contains(name_path.as_slice());
            let row = FlatRow {
                depth: child.depth,
                name: child.name.clone(),
                size: child.size,
                node_type: child.node_type,
                has_children: child.children.len() > 0,
                is_expanded,
                path_indices,
                name_path,
            };
            proof {
                assert(row@ == row_for(children@[i as int], i as int, expanded@, pi, pn));
            }
            rows.push(row);
            proof {
                assert(rows_view(rows@) =~= before.push(row@));
            }
            let ghost mid = rows_view(rows@);
            if is_expanded {
                flatten_children(
                    child.children.as_slice(),
                    expanded,
                    filter,
                    now,
                    parent_indices,
                    parent_names,
                    rows,
                );
            }
            proof {
                if is_expanded {
                    assert(block =~= seq![row@] + flatten_from(
                        children@[i as int].children@,
                        0,
                        expanded@,
                        filter,
                        now as int,
                        ip,
                        np,
                    ));
                } else {
                    assert(block =~= seq![row@]);
                }
                assert(rows_view(rows@) =~= before + block);
            }
            let ghost names_before_pop = parent_names@;
            parent_indices.pop();
            parent_names.pop();
            proof {
                assert(texts(names_before_pop) == np);
                assert(texts(parent_names@) =~= texts(names_before_pop).drop_last());
                assert(parent_indices@ =~= pi);
                assert(texts(parent_names@) =~= pn);
            }
        } else {
            proof {
                assert(block =~= Seq::<RowModel>::empty());
            }
        }
        proof {
            assert(rows_view(rows@) + rest =~= before + block + rest);
        }
        i = i + 1;
    }
    proof {
        assert(flatten_from(children@, i as int, expanded@, filter, now as int, pi, pn) =~= Seq::<
            RowModel,
        >::empty());
        assert(rows_view(rows@) =~= start + flatten_from(
            children@,
            0,
            expanded@,
            filter,
            now as int,
            pi,
            pn,
        ));
    }
}

/// The rows of the tree below `root` under a filter, with the clock reading `now`.
pub fn flatten_tree_filtered_at(
    root: &DiskNode,
    expanded: &NamePathSet,
    filter: Option<&FilterCriteria>,
    now: i128,
) -> (rows: Vec<FlatRow>)
    requires
        opt_filter_ok(filter),
    ensures
        rows_view(rows@) == flatten_from(
            root.children@,
            0,
            expanded@,
            filter,
            now as int,
            Seq::empty(),
            Seq::empty(),
        ),
{
    let mut rows: Vec<FlatRow> = Vec::new();
    let mut indices: Vec<usize> = Vec::new();
    let mut names: Vec<String> = Vec::new();
    proof {
        assert(texts(names@) =~= Seq::<Seq<char>>::empty());
        assert(rows_view(rows@) =~= Seq::<RowModel>::empty());
    }
    flatten_children(
        root.children.as_slice(),
        expanded,
        filter,
        now,
        &mut indices,
        &mut names,
        &mut rows,
    );
    proof {
        assert(Seq::<RowModel>::empty() + flatten_from(
            root.children@,
            0,
            expanded@,
            filter,
            now as int,
            Seq::empty(),
            Seq::empty(),
        ) =~= flatten_from(
            root.children@,
            0,
            expanded@,
            filter,
            now as int,
            Seq::empty(),
            Seq::empty(),
        ));
    }
    rows
}

/// Flatten the tree with optional filter. A modification-time filter reads the clock.
pub fn flatten_tree_filtered(
    root: &DiskNode,
    expanded: &NamePathSet,
    filter: Option<&FilterCriteria>,
) -> (rows: Vec<FlatRow>)
    requires
        opt_filter_ok(filter),
    ensures
        exists|t: i128|
            clock_reading(filter, t) && rows_view(rows@) == flatten_from(
                root.children@,
                0,
                expanded@,
                filter,
                t as int,
                Seq::empty(),
                Seq::empty(),
            ),
{
    let now = clock_for(filter);
    flatten_tree_filtered_at(root, expanded, filter, now)
}

/// Flatten the tree into visible rows based on which directories are expanded.
pub fn flatten_tree(root: &DiskNode, expanded: &NamePathSet) -> (rows: Vec<FlatRow>)
    ensures
        rows_view(rows@) == flatten_from(
            root.children@,
            0,
            expanded@,
            None,
            0,
            Seq::empty(),
            Seq::empty(),
        ),
{
    flatten_tree_filtered_at(root, expanded, None, 0)
}

// ---------------------------------------------------------------------------
// Tree view navigation
// ---------------------------------------------------------------------------

/// Navigation and display state for the tree view. `list_selected` is the row that the
/// rendered list highlights.
pub struct TreeViewState {
    pub cursor: usize,
    pub expanded: NamePathSet,
    pub list_selected: Option<usize>,
}

/// Index of the first of `rows[i..]` whose name path is `p`, or -1 when there is none.
pub open spec fn first_row_with_path(rows: Seq<FlatRow>, p: Seq<Seq<char>>, i: int) -> int
    decreases rows.len() - i,
{
    if i < 0 || i >= rows.len() {
        -1
    } else if texts(rows[i].name_path@) == p {
        i
    } else {
        first_row_with_path(rows, p, i + 1)
    }
}

/// The expanded set after toggling the path `p`: collapsed when it was expanded, else
/// expanded.
pub open spec fn toggled(set: Set<Seq<Seq<char>>>, p: Seq<Seq<char>>) -> Set<Seq<Seq<char>>> {
    if set.contains(p) {
        set.remove(p)
    } else {
        set.insert(p)
    }
}

/// Toggling the same directory twice leaves the expanded set as it was.
pub proof fn lemma_toggle_twice(set: Set<Seq<Seq<char>>>, p: Seq<Seq<char>>)
    ensures
        toggled(toggled(set, p), p) == set,
{
    assert(toggled(toggled(set, p), p) =~= set);
}

/// What a `TreeViewState` says: the cursor row, the expanded name paths and the
/// highlighted row.
#[verifier::ext_equal]
pub struct TreeModel {
    pub cursor: usize,
    pub expanded: Set<Seq<Seq<char>>>,
    pub list_selected: Option<usize>,
}

impl View for TreeViewState {
    type V = TreeModel;

    open spec fn view(&self) -> TreeModel {
        TreeModel { cursor: self.cursor, expanded: self.expanded@, list_selected: self.list_selected }
    }
}

/// `m` after moving the cursor one row down among `row_count` rows, stopping at the last.
pub open spec fn move_down_spec(m: TreeModel, row_count: int) -> TreeModel {
    if row_count == 0 {
        m
    } else {
        let c = if m.cursor + 1 < row_count - 1 {
            (m.cursor + 1) as usize
        } else {
            (row_count - 1) as usize
        };
        TreeModel { cursor: c, expanded: m.expanded, list_selected: Some(c) }
    }
}

/// `m` after moving the cursor one row up, stopping at the first.
pub open spec fn move_up_spec(m: TreeModel) -> TreeModel {
    let c = if m.cursor > 0 {
        (m.cursor - 1) as usize
    } else {
        0usize
    };
    TreeModel { cursor: c, expanded: m.expanded, list_selected: Some(c) }
}

/// Whether the cursor of `m` is on a directory row with children.
pub open spec fn on_open_dir(m: TreeModel, rows: Seq<FlatRow>) -> bool {
    m.cursor < rows.len() && rows[m.cursor as int].node_type == NodeType::Dir
        && rows[m.cursor as int].has_children
}

/// `m` after toggling the directory under the cursor.
pub open spec fn toggle_spec(m: TreeModel, rows: Seq<FlatRow>) -> TreeModel {
    if on_open_dir(m, rows) {
        TreeModel {
            expanded: toggled(m.expanded, texts(rows[m.cursor as int].name_path@)),
            ..m
        }
    } else {
        m
    }
}

/// `m` after drilling in: the directory under the cursor is expanded and the cursor
/// moves to the row after it (its first child once the rows are flattened again).
pub open spec fn tree_drill_in_spec(m: TreeModel, rows: Seq<FlatRow>) -> TreeModel {
    if on_open_dir(m, rows) {
        TreeModel {
            cursor: (m.cursor + 1) as usize,
            expanded: m.expanded.insert(texts(rows[m.cursor as int].name_path@)),
            list_selected: Some((m.cursor + 1) as usize),
        }
    } else {
        m
    }
}

/// `m` after drilling out: an expanded directory under the cursor collapses; otherwise
/// the cursor moves to the row of the parent directory, if it has one and it is shown.
pub open spec fn tree_drill_out_spec(m: TreeModel, rows: Seq<FlatRow>) -> TreeModel {
    let c = m.cursor as int;
    if c >= rows.len() {
        m
    } else {
        let p = texts(rows[c].name_path@);
        if rows[c].node_type == NodeType::Dir && m.expanded.contains(p) {
            TreeModel { expanded: m.expanded.remove(p), ..m }
        } else {
            let parent = first_row_with_path(rows, p.drop_last(), 0);
            if p.len() > 1 && parent >= 0 {
                TreeModel {
                    cursor: parent as usize,
                    expanded: m.expanded,
                    list_selected: Some(parent as usize),
                }
            } else {
                m
            }
        }
    }
}

/// `m` after clamping the cursor to `row_count` rows (to the first row when there are
/// none).
pub open spec fn clamp_spec(m: TreeModel, row_count: int) -> TreeModel {
    let c = if row_count == 0 {
        0usize
    } else if m.cursor >= row_count {
        (row_count - 1) as usize
    } else {
        m.cursor
    };
    TreeModel { cursor: c, expanded: m.expanded, list_selected: Some(c) }
}

impl TreeViewState {
    pub fn new() -> (s: Self)
        ensures
            s.cursor == 0,
            s.expanded@ == Set::<Seq<Seq<char>>>::empty(),
            s.list_selected == Some(0usize),
    {
        TreeViewState { cursor: 0, expanded: NamePathSet::new(), list_selected: Some(0) }
    }

    /// Move the cursor one row down, stopping at the last of `row_count` rows.
    pub fn move_down(&mut self, row_count: usize)
        ensures
            final(self)@ == move_down_spec(old(self)@, row_count as int),
    {
        if row_count == 0 {
            return;
        }
        self.cursor = if self.cursor < row_count - 1 {
            self.cursor + 1
        } else {
            row_count - 1
        };
        self.list_selected = Some(self.cursor);
    }

    /// Move the cursor one row up, stopping at the first row.
    pub fn move_up(&mut self)
        ensures
            final(self)@ == move_up_spec(old(self)@),
    {
        self.cursor = if self.cursor > 0 {
            self.cursor - 1
        } else {
            0
        };
        self.list_selected = Some(self.cursor);
    }

    /// Toggle expand/collapse for the directory at cursor.
    pub fn toggle_expand(&mut self, rows: &[FlatRow])
        ensures
            final(self)@ == toggle_spec(old(self)@, rows@),
    {
        if self.cursor < rows.len() {
            let row = &rows[self.cursor];
            if row.node_type == NodeType::Dir && row.has_children {
                let name_path = copy_names(row.name_path.as_slice());
                if !self.expanded.remove(name_path.as_slice()) {
                    self.expanded.insert(name_path);
                }
            }
        }
        proof {
            assert(self@ =~= toggle_spec(old(self)@, rows@));
        }
    }

    /// Expand the directory at cursor and move cursor to its first child.
    pub fn drill_in(&mut self, rows: &[FlatRow])
        ensures
            final(self)@ == tree_drill_in_spec(old(self)@, rows@),
    {
        if self.cursor < rows.len() {
            let row = &rows[self.cursor];
            if row.node_type == NodeType::Dir && row.has_children {
                let name_path = copy_names(row.name_path.as_slice());
                self.expanded.insert(name_path);
                // After re-flatten, the first child will be at cursor + 1
                self.cursor = self.cursor + 1;
                self.list_selected = Some(self.cursor);
            }
        }
    }

    /// Collapse current directory or move to parent.
    pub fn drill_out(&mut self, rows: &[FlatRow])
        ensures
            final(self)@ == tree_drill_out_spec(old(self)@, rows@),
    {
        if self.cursor < rows.len() {
            let row = &rows[self.cursor];
            // If we're on an expanded dir, collapse it
            if row.node_type == NodeType::Dir && self.expanded.contains(row.name_path.as_slice()) {
                self.expanded.remove(row.name_path.as_slice());
                return;
            }
            // Otherwise, find and move to parent
            if row.name_path.len() > 1 {
                let n = row.name_path.len() - 1;
                let parent_name_path = copy_names(&row.name_path.as_slice()[0..n]);
                let ghost p = texts(row.name_path@);
                proof {
                    assert(texts(parent_name_path@) =~= p.drop_last());
                }
                let mut i: usize = 0;
                while i < rows.len()
                    invariant
                        i <= rows@.len(),
                        p.len() > 1,
                        (old(self).cursor as int) < rows@.len(),
                        p == texts(rows@[old(self).cursor as int].name_path@),
                        !(rows@[old(self).cursor as int].node_type == NodeType::Dir
                            && old(self).expanded@.contains(p)),
                        self.cursor == old(self).cursor,
                        self.list_selected == old(self).list_selected,
                        self.expanded@ == old(self).expanded@,
                        texts(parent_name_path@) == p.drop_last(),
                        first_row_with_path(rows@, p.drop_last(), 0) == first_row_with_path(
                            rows@,
                            p.drop_last(),
                            i as int,
                        ),
                    decreases rows@.len() - i,
                {
                    if same_names(rows[i].name_path.as_slice(), parent_name_path.as_slice()) {
                        self.cursor = i;
                        self.list_selected = Some(self.cursor);
                        return;
                    }
                    i = i + 1;
                }
            }
        }
    }

    /// Clamp cursor to valid range after tree mutation.
    pub fn clamp_cursor(&mut self, row_count: usize)
        ensures
            final(self)@ == clamp_spec(old(self)@, row_count as int),
    {
        if row_count == 0 {
            self.cursor = 0;
        } else if self.cursor >= row_count {
            self.cursor = row_count - 1;
        }
        self.list_selected = Some(self.cursor);
    }
}

// ---------------------------------------------------------------------------
// Children shown under a filter
// ---------------------------------------------------------------------------

/// The indices `i..` of `children` that show up under the filter, ascending.
pub open spec fn visible_from(
    children: Seq<DiskNode>,
    i: int,
    filter: Option<&FilterCriteria>,
    now: int,
) -> Seq<usize>
    decreases children.len() - i,
{
    if i < 0 || i >= children.len() {
        Seq::empty()
    } else {
        (if shown(children[i], filter, now) {
            seq![i as usize]
        } else {
            Seq::empty()
        }) + visible_from(children, i + 1, filter, now)
    }
}

/// The indices of the children of `node` that show up under the filter, ascending.
pub open spec fn visible_children(node: DiskNode, filter: Option<&FilterCriteria>, now: int) -> Seq<
    usize,
> {
    visible_from(node.children@, 0, filter, now)
}

/// Every index in `visible_from(children, i, ..)` lies in `i..children.len()` and is
/// shown, they ascend, and every shown index in that range is among them.
pub proof fn lemma_visible_from(
    children: Seq<DiskNode>,
    i: int,
    filter: Option<&FilterCriteria>,
    now: int,
)
    requires
        0 <= i <= children.len(),
        children.len() <= usize::MAX,
    ensures
        forall|k: int|
            0 <= k < visible_from(children, i, filter, now).len() ==> i <= #[trigger] visible_from(
                children,
                i,
                filter,
                now,
            )[k] < children.len() && shown(
                children[visible_from(children, i, filter, now)[k] as int],
                filter,
                now,
            ),
        forall|a: int, b: int|
            0 <= a < b < visible_from(children, i, filter, now).len() ==> #[trigger] visible_from(
                children,
                i,
                filter,
                now,
            )[a] < #[trigger] visible_from(children, i, filter, now)[b],
        forall|j: int|
            i <= j < children.len() && shown(children[j], filter, now) ==> #[trigger] visible_from(
                children,
                i,
                filter,
                now,
            ).contains(j as usize),
    decreases children.len() - i,
{
    if i < children.len() {
        lemma_visible_from(children, i + 1, filter, now);
        let rest = visible_from(children, i + 1, filter, now);
        let head = if shown(children[i], filter, now) {
            seq![i as usize]
        } else {
            Seq::<usize>::empty()
        };
        let all = visible_from(children, i, filter, now);
        assert(all == head + rest);
        assert forall|j: int|
            i <= j < children.len() && shown(children[j], filter, now) implies #[trigger] all.contains(
            j as usize,
        ) by {
            if j == i {
                assert(all[0] == i as usize);
            } else {
                assert(rest.contains(j as usize));
                let k = choose|k: int| 0 <= k < rest.len() && rest[k] == j as usize;
                assert(all[head.len() + k] == j as usize);
            }
        }
    }
}

/// Child indices of `node` that should appear in bar/treemap under the active filter
/// (same rules as the tree view), with the clock reading `now`.
pub fn filter_visible_child_indices_at(
    node: &DiskNode,
    filter: Option<&FilterCriteria>,
    now: i128,
) -> (out: Vec<usize>)
    requires
        opt_filter_ok(filter),
    ensures
        out@ == visible_children(*node, filter, now as int),
{
    let mut out: Vec<usize> = Vec::new();
    let mut i: usize = 0;
    while i < node.children.len()
        invariant
            i <= node.children@.len(),
            opt_filter_ok(filter),
            out@ + visible_from(node.children@, i as int, filter, now as int) == visible_children(
                *node,
                filter,
                now as int,
            ),
        decreases node.children@.len() - i,
    {
        let child = &node.children[i];
        let ghost rest = visible_from(node.children@, i as int + 1, filter, now as int);
        let keep = match filter {
            Some(f) => {
                if !f.matches_at(child, now) {
                    false
                } else if child.node_type == NodeType::Dir && !has_matching_descendant(
                    child,
                    f,
                    now,
                ) {
                    false
                } else {
                    true
                }
            },
            None => true,
        };
        let ghost before = out@;
        if keep {
            out.push(i);
            proof {
                assert(out@ + rest =~= before + visible_from(
                    node.children@,
                    i as int,
                    filter,
                    now as int,
                ));
            }
        } else {
            proof {
                assert(out@ + rest =~= before + visible_from(
                    node.children@,
                    i as int,
                    filter,
                    now as int,
                ));
            }
        }
        i = i + 1;
    }
    proof {
        assert(out@ + visible_from(node.children@, i as int, filter, now as int) =~= out@);
    }
    out
}

/// Child indices of `node` that should appear in bar/treemap under the active filter.
/// A modification-time filter reads the clock.
pub fn filter_visible_child_indices(node: &DiskNode, filter: Option<&FilterCriteria>) -> (out: Vec<
    usize,
>)
    requires
        opt_filter_ok(filter),
    ensures
        exists|t: i128| clock_reading(filter, t) && out@ == visible_children(*node, filter, t as int),
{
    let now = clock_for(filter);
    filter_visible_child_indices_at(node, filter, now)
}

// ---------------------------------------------------------------------------
// Resolving index paths and name paths
// ---------------------------------------------------------------------------

/// The node reached from `root` by following the child indices `path`, if all exist.
pub open spec fn node_at(root: DiskNode, path: Seq<usize>) -> Option<DiskNode>
    decreases path.len(),
{
    if path.len() == 0 {
        Some(root)
    } else if path[0] < root.children@.len() {
        node_at(root.children@[path[0] as int], path.drop_first())
    } else {
        None
    }
}

/// The names of the nodes passed when following `path` from `root` (root excluded).
pub open spec fn names_on_path(root: DiskNode, path: Seq<usize>) -> Seq<Seq<char>>
    decreases path.len(),
{
    if path.len() == 0 || path[0] >= root.children@.len() {
        Seq::empty()
    } else {
        seq![root.children@[path[0] as int].name@] + names_on_path(
            root.children@[path[0] as int],
            path.drop_first(),
        )
    }
}

/// Following `path.push(j)` goes where `path` goes and then to child `j`, passing its name.
pub proof fn lemma_path_push(root: DiskNode, path: Seq<usize>, j: usize)
    requires
        node_at(root, path) is Some,
        (j as int) < node_at(root, path)->0.children@.len(),
    ensures
        node_at(root, path.push(j)) == Some(node_at(root, path)->0.children@[j as int]),
        names_on_path(root, path.push(j)) == names_on_path(root, path).push(
            node_at(root, path)->0.children@[j as int].name@,
        ),
    decreases path.len(),
{
    if path.len() == 0 {
        assert(path.push(j).drop_first() =~= Seq::<usize>::empty());
        assert(path.push(j)[0] == j);
        let c = root.children@[j as int];
        assert(node_at(c, Seq::<usize>::empty()) == Some(c));
        assert(names_on_path(c, Seq::<usize>::empty()) =~= Seq::<Seq<char>>::empty());
        assert(names_on_path(root, path.push(j)) =~= seq![c.name@]);
    } else {
        let c = root.children@[path[0] as int];
        assert(path.push(j).drop_first() =~= path.drop_first().push(j));
        assert(path.push(j)[0] == path[0]);
        lemma_path_push(c, path.drop_first(), j);
        assert(names_on_path(root, path.push(j)) =~= seq![c.name@] + names_on_path(
            c,
            path.drop_first().push(j),
        ));
        assert(names_on_path(root, path).push(node_at(root, path)->0.children@[j as int].name@)
            =~= seq![c.name@] + names_on_path(c, path.drop_first()).push(
            node_at(root, path)->0.children@[j as int].name@,
        ));
    }
}

/// Whether row `r` stands for the node its index path leads to from `root`: the same
/// name, size and type, and as name path the names along the way.
pub open spec fn row_points_at_node(root: DiskNode, r: RowModel) -> bool {
    &&& node_at(root, r.path_indices) matches Some(n) && n.name@ == r.name && n.size == r.size
        && n.node_type == r.node_type
    &&& names_on_path(root, r.path_indices) == r.name_path
}

proof fn lemma_rows_from_point_at_nodes(
    root: DiskNode,
    base: DiskNode,
    children: Seq<DiskNode>,
    i: int,
    expanded: Set<Seq<Seq<char>>>,
    filter: Option<&FilterCriteria>,
    now: int,
    pi: Seq<usize>,
    pn: Seq<Seq<char>>,
)
    requires
        node_at(root, pi) == Some(base),
        children == base.children@,
        names_on_path(root, pi) == pn,
        0 <= i,
        children.len() <= usize::MAX,
    ensures
        forall|k: int|
            0 <= k < flatten_from(children, i, expanded, filter, now, pi, pn).len()
                ==> row_points_at_node(
                root,
                #[trigger] flatten_from(children, i, expanded, filter, now, pi, pn)[k],
            ),
    decreases children, children.len() - i,
{
    if i < children.len() {
        let child = children[i];
        let rest = flatten_from(children, i + 1, expanded, filter, now, pi, pn);
        let block = child_block(child, i, expanded, filter, now, pi, pn);
        lemma_rows_from_point_at_nodes(root, base, children, i + 1, expanded, filter, now, pi, pn);
        lemma_path_push(root, pi, i as usize);
        let ip = pi.push(i as usize);
        let np = pn.push(child.name@);
        if shown(child, filter, now) && expanded.contains(np) {
            assert(decreases_to!(children => child.children@));
            assert(child.children@.len() <= usize::MAX) by {
                broadcast use vstd::std_specs::vec::axiom_spec_len;

                assert(child.children@.len() == child.children.len());
            }
            lemma_rows_from_point_at_nodes(
                root,
                child,
                child.children@,
                0,
                expanded,
                filter,
                now,
                ip,
                np,
            );
        }
        let all = flatten_from(children, i, expanded, filter, now, pi, pn);
        assert(all == block + rest);
        assert forall|k: int| 0 <= k < all.len() implies row_points_at_node(root, #[trigger] all[k]) by {
            if k < block.len() {
                if k == 0 {
                    assert(block[0] == row_for(child, i, expanded, pi, pn));
                } else {
                    let inner = flatten_from(child.children@, 0, expanded, filter, now, ip, np);
                    assert(block[k] == inner[k - 1]);
                }
            } else {
                assert(all[k] == rest[k - block.len()]);
            }
        }
    }
}

/// Every row of the tree view stands for the node its index path leads to: the same
/// name, size and type, with the names along that path as its name path.
pub proof fn lemma_rows_point_at_nodes(
    root: DiskNode,
    expanded: Set<Seq<Seq<char>>>,
    filter: Option<&FilterCriteria>,
    now: int,
    k: int,
)
    requires
        0 <= k < flatten_from(root.children@, 0, expanded, filter, now, Seq::empty(), Seq::empty()).len(),
    ensures
        row_points_at_node(
            root,
            flatten_from(root.children@, 0, expanded, filter, now, Seq::empty(), Seq::empty())[k],
        ),
{
    assert(node_at(root, Seq::<usize>::empty()) == Some(root));
    assert(names_on_path(root, Seq::<usize>::empty()) =~= Seq::<Seq<char>>::empty());
    assert(root.children@.len() <= usize::MAX) by {
        broadcast use vstd::std_specs::vec::axiom_spec_len;

        assert(root.children@.len() == root.children.len());
    }
    lemma_rows_from_point_at_nodes(
        root,
        root,
        root.children@,
        0,
        expanded,
        filter,
        now,
        Seq::empty(),
        Seq::empty(),
    );
}

/// Resolve a path_indices to the actual DiskNode reference.
pub fn resolve_node<'a>(root: &'a DiskNode, path: &[usize]) -> (r: Option<&'a DiskNode>)
    ensures
        match r {
            Some(n) => node_at(*root, path@) == Some(*n),
            None => node_at(*root, path@) is None,
        },
{
    let mut node = root;
    let mut i: usize = 0;
    proof {
        assert(path@.subrange(0, path@.len() as int) =~= path@);
    }
    while i < path.len()
        invariant
            i <= path@.len(),
            node_at(*root, path@) == node_at(*node, path@.subrange(i as int, path@.len() as int)),
        decreases path@.len() - i,
    {
        let idx = path[i];
        proof {
            assert(path@.subrange(i as int, path@.len() as int).drop_first() =~= path@.subrange(
                i as int + 1,
                path@.len() as int,
            ));
        }
        if idx >= node.children.len() {
            return None;
        }
        node = &node.children[idx];
        i = i + 1;
    }
    proof {
        assert(path@.subrange(i as int, path@.len() as int) =~= Seq::<usize>::empty());
    }
    Some(node)
}

/// `new` is `old` with the node at `path` replaced by `sub` (`path` leads to a node in
/// `old`).
pub open spec fn replaced_at(new: DiskNode, old: DiskNode, path: Seq<usize>, sub: DiskNode) -> bool
    decreases path.len(),
{
    if path.len() == 0 {
        new == sub
    } else {
        &&& new.name == old.name
        &&& new.size == old.size
        &&& new.node_type == old.node_type
        &&& new.depth == old.depth
        &&& new.modified == old.modified
        &&& new.children@.len() == old.children@.len()
        &&& path[0] < old.children@.len()
        &&& forall|k: int|
            0 <= k < old.children@.len() && k != path[0] ==> #[trigger] new.children@[k]
                == old.children@[k]
        &&& replaced_at(
            new.children@[path[0] as int],
            old.children@[path[0] as int],
            path.drop_first(),
            sub,
        )
    }
}

/// `new` is `old` with the node at the non-empty `path` taken out and `removed` bytes
/// taken off the size of every node above it (down to zero).
pub open spec fn removed_from(new: DiskNode, old: DiskNode, path: Seq<usize>, removed: u64) -> bool
    decreases path.len(),
{
    &&& path.len() > 0
    &&& path[0] < old.children@.len()
    &&& new.name == old.name
    &&& new.size == (if old.size >= removed {
        (old.size - removed) as u64
    } else {
        0u64
    })
    &&& new.node_type == old.node_type
    &&& new.depth == old.depth
    &&& new.modified == old.modified
    &&& if path.len() == 1 {
        new.children@ == old.children@.remove(path[0] as int)
    } else {
        &&& new.children@.len() == old.children@.len()
        &&& forall|k: int|
            0 <= k < old.children@.len() && k != path[0] ==> #[trigger] new.children@[k]
                == old.children@[k]
        &&& removed_from(
            new.children@[path[0] as int],
            old.children@[path[0] as int],
            path.drop_first(),
            removed,
        )
    }
}

impl DiskNode {
    /// Remove the node at `path` (index path from this node) after it was deleted from
    /// disk, taking its size off every node above it. Returns the removed size, or `None`
    /// (and changes nothing) when the path is empty or names no node.
    pub fn remove_node(&mut self, path: &[usize]) -> (r: Option<u64>)
        ensures
            match r {
                Some(sz) => {
                    &&& node_at(*old(self), path@) matches Some(n) && n.size == sz
                    &&& removed_from(*final(self), *old(self), path@, sz)
                },
                None => (path@.len() == 0 || node_at(*old(self), path@) is None) && *final(self)
                    == *old(self),
            },
    {
        if path.len() == 0 {
            return None;
        }
        if resolve_node(self, path).is_none() {
            return None;
        }
        Some(self.remove_existing(path))
    }

    fn remove_existing(&mut self, path: &[usize]) -> (sz: u64)
        requires
            path@.len() > 0,
            node_at(*old(self), path@) is Some,
        ensures
            node_at(*old(self), path@) matches Some(n) && n.size == sz,
            removed_from(*final(self), *old(self), path@, sz),
        decreases path@.len(),
    {
        let idx = path[0];
        let ghost start = *self;
        if path.len() == 1 {
            let removed = self.children.remove(idx);
            self.size = if self.size >= removed.size {
                self.size - removed.size
            } else {
                0
            };
            proof {
                assert(path@.drop_first().len() == 0);
                assert(removed == start.children@[idx as int]);
                assert(node_at(removed, path@.drop_first()) == Some(removed));
            }
            return removed.size;
        }
        let rest = &path[1..path.len()];
        proof {
            assert(rest@ =~= path@.drop_first());
        }
        let sz = self.children[idx].remove_existing(rest);
        self.size = if self.size >= sz {
            self.size - sz
        } else {
            0
        };
        proof {
            assert(path@.len() != 1);
            assert forall|k: int|
                0 <= k < start.children@.len() && k != path@[0] implies #[trigger] self.children@[k]
                == start.children@[k] by {}
        }
        sz
    }
}

fn node_at_mut<'a>(root: &'a mut DiskNode, path: &[usize]) -> (n: &'a mut DiskNode)
    requires
        node_at(*old(root), path@) is Some,
    ensures
        node_at(*old(root), path@) == Some(*n),
        replaced_at(*final(root), *old(root), path@, *final(n)),
    decreases path@.len(),
{
    if path.len() == 0 {
        return root;
    }
    let idx = path[0];
    let rest = &path[1..path.len()];
    proof {
        assert(rest@ =~= path@.drop_first());
    }
    node_at_mut(&mut root.children[idx], rest)
}

/// Resolve a path_indices to a mutable DiskNode reference.
pub fn resolve_node_mut<'a>(root: &'a mut DiskNode, path: &[usize]) -> (r: Option<
    &'a mut DiskNode,
>)
    ensures
        match r {
            Some(n) => node_at(*old(root), path@) == Some(*n) && replaced_at(
                *final(root),
                *old(root),
                path@,
                *final(n),
            ),
            None => node_at(*old(root), path@) is None && *final(root) == *old(root),
        },
{
    if resolve_node(root, path).is_none() {
        return None;
    }
    Some(node_at_mut(root, path))
}

// ---------------------------------------------------------------------------
// Filesystem paths
// ---------------------------------------------------------------------------

/// The path `base` extended by `name` the way `PathBuf::push` extends it on Unix: an
/// absolute `name` replaces `base`; otherwise a '/' goes between them unless `base` is
/// empty or already ends in one.
pub open spec fn join_component(base: Seq<char>, name: Seq<char>) -> Seq<char> {
    if name.len() > 0 && name[0] == '/' {
        name
    } else if base.len() == 0 || base.last() == '/' {
        base + name
    } else {
        base + seq!['/'] + name
    }
}

/// `base` extended by each of `names` in turn.
pub open spec fn join_all(base: Seq<char>, names: Seq<Seq<char>>) -> Seq<char>
    decreases names.len(),
{
    if names.len() == 0 {
        base
    } else {
        join_all(join_component(base, names[0]), names.drop_first())
    }
}

/// Extends the path in `buf` by `name` (see `join_component`).
pub fn push_component(buf: &mut String, name: &str)
    ensures
        final(buf)@ == join_component(old(buf)@, name@),
{
    let name_chars = chars_of(name);
    if name_chars.len() > 0 && name_chars[0] == '/' {
        *buf = String::from_str(name);
        return;
    }
    let base_chars = chars_of(buf.as_str());
    if base_chars.len() > 0 && base_chars[base_chars.len() - 1] != '/' {
        buf.append("/");
        proof {
            reveal_strlit("/");
        }
    }
    buf.append(name);
    proof {
        assert(final(buf)@ =~= join_component(old(buf)@, name@));
    }
}

/// Build the filesystem path for a node identified by path_indices, starting from the
/// scan root's path.
pub fn resolve_fs_path(root_path: &str, root: &DiskNode, path_indices: &[usize]) -> (r: Option<
    String,
>)
    ensures
        match node_at(*root, path_indices@) {
            Some(_) => r is Some && r->0@ == join_all(root_path@, names_on_path(*root, path_indices@)),
            None => r is None,
        },
{
    let mut fs_path = String::from_str(root_path);
    let mut node = root;
    let mut i: usize = 0;
    proof {
        assert(path_indices@.subrange(0, path_indices@.len() as int) =~= path_indices@);
    }
    while i < path_indices.len()
        invariant
            i <= path_indices@.len(),
            node_at(*root, path_indices@) == node_at(
                *node,
                path_indices@.subrange(i as int, path_indices@.len() as int),
            ),
            node_at(*root, path_indices@) is Some ==> join_all(
                root_path@,
                names_on_path(*root, path_indices@),
            ) == join_all(
                fs_path@,
                names_on_path(*node, path_indices@.subrange(i as int, path_indices@.len() as int)),
            ),
        decreases path_indices@.len() - i,
    {
        let idx = path_indices[i];
        let ghost rest = path_indices@.subrange(i as int, path_indices@.len() as int);
        proof {
            assert(rest.drop_first() =~= path_indices@.subrange(
                i as int + 1,
                path_indices@.len() as int,
            ));
        }
        if idx >= node.children.len() {
            return None;
        }
        let ghost prev = fs_path@;
        let ghost parent = *node;
        node = &node.children[idx];
        push_component(&mut fs_path, node.name.as_str());
        proof {
            let tail = names_on_path(*node, path_indices@.subrange(i as int + 1, path_indices@.len() as int));
            assert(names_on_path(parent, rest) == seq![node.name@] + tail);
            assert((seq![node.name@] + tail).drop_first() =~= tail);
            assert((seq![node.name@] + tail)[0] == node.name@);
        }
        i = i + 1;
    }
    proof {
        assert(path_indices@.subrange(i as int, path_indices@.len() as int) =~= Seq::<
            usize,
        >::empty());
    }
    Some(fs_path)
}

/// Index of the first of `s[i..]` named `name`, or -1 when there is none.
pub open spec fn first_named_from(s: Seq<DiskNode>, name: Seq<char>, i: int) -> int
    decreases s.len() - i,
{
    if i < 0 || i >= s.len() {
        -1
    } else if s[i].name@ == name {
        i
    } else {
        first_named_from(s, name, i + 1)
    }
}

/// Index of the first of `s` named `name`, or -1 when there is none.
pub open spec fn first_named(s: Seq<DiskNode>, name: Seq<char>) -> int {
    first_named_from(s, name, 0)
}

/// The first of `s[i..]` named `name` is at an index in `i..s.len()` with that name, and
/// none before it from `i` has it; -1 means none of `s[i..]` has it.
pub proof fn lemma_first_named_from(s: Seq<DiskNode>, name: Seq<char>, i: int)
    requires
        0 <= i <= s.len(),
    ensures
        first_named_from(s, name, i) == -1 || (i <= first_named_from(s, name, i) < s.len()
            && s[first_named_from(s, name, i)].name@ == name),
        forall|k: int|
            i <= k < s.len() && (first_named_from(s, name, i) == -1 || k < first_named_from(
                s,
                name,
                i,
            )) ==> (#[trigger] s[k]).name@ != name,
    decreases s.len() - i,
{
    if i < s.len() && s[i].name@ != name {
        lemma_first_named_from(s, name, i + 1);
    }
}

/// Position of the first child named `name` (`Iterator::position` over the children).
pub fn position_of_name(children: &[DiskNode], name: &str) -> (r: Option<usize>)
    ensures
        match r {
            Some(k) => first_named(children@, name@) == k,
            None => first_named(children@, name@) == -1,
        },
{
    let mut i: usize = 0;
    while i < children.len()
        invariant
            i <= children@.len(),
            first_named(children@, name@) == first_named_from(children@, name@, i as int),
        decreases children@.len() - i,
    {
        if same_text(children[i].name.as_str(), name) {
            return Some(i);
        }
        i = i + 1;
    }
    None
}

/// Following the names `names` from `node`, each step going to the first child of that
/// name: the child indices taken and the node reached, if every name is found.
pub open spec fn walk_names(node: DiskNode, names: Seq<Seq<char>>) -> Option<(Seq<usize>, DiskNode)>
    decreases names.len(),
{
    if names.len() == 0 {
        Some((Seq::empty(), node))
    } else {
        let k = first_named(node.children@, names[0]);
        if k < 0 {
            None
        } else {
            match walk_names(node.children@[k], names.drop_first()) {
                None => None,
                Some((idx, n)) => Some((seq![k as usize] + idx, n)),
            }
        }
    }
}

/// Walking `names.push(x)` walks `names` and then takes one step to the first child
/// named `x`.
pub proof fn lemma_walk_push(node: DiskNode, names: Seq<Seq<char>>, x: Seq<char>)
    ensures
        walk_names(node, names.push(x)) == match walk_names(node, names) {
            None => None,
            Some((idx, n)) => {
                let k = first_named(n.children@, x);
                if k < 0 {
                    None
                } else {
                    Some((idx.push(k as usize), n.children@[k]))
                }
            },
        },
    decreases names.len(),
{
    if names.len() == 0 {
        assert(names.push(x).drop_first() =~= Seq::<Seq<char>>::empty());
        assert(names.push(x)[0] == x);
        assert(walk_names(node, names) == Some((Seq::<usize>::empty(), node)));
        let k = first_named(node.children@, x);
        if k >= 0 {
            let c = node.children@[k];
            assert(walk_names(c, Seq::<Seq<char>>::empty()) == Some((Seq::<usize>::empty(), c)));
            assert(seq![k as usize] + Seq::<usize>::empty() =~= Seq::<usize>::empty().push(k as usize));
        }
    } else {
        assert(names.push(x).drop_first() =~= names.drop_first().push(x));
        assert(names.push(x)[0] == names[0]);
        let k = first_named(node.children@, names[0]);
        if k >= 0 {
            lemma_walk_push(node.children@[k], names.drop_first(), x);
            match walk_names(node.children@[k], names.drop_first()) {
                None => {},
                Some((idx, n)) => {
                    let k2 = first_named(n.children@, x);
                    if k2 >= 0 {
                        assert(seq![k as usize] + idx.push(k2 as usize) =~= (seq![k as usize]
                            + idx).push(k2 as usize));
                    }
                },
            }
        }
    }
}

/// When a whole walk succeeds, so does the walk of each of its prefixes.
pub proof fn lemma_walk_prefix(node: DiskNode, names: Seq<Seq<char>>, j: int)
    requires
        0 <= j <= names.len(),
        walk_names(node, names) is Some,
    ensures
        walk_names(node, names.subrange(0, j)) is Some,
    decreases names.len() - j,
{
    if j < names.len() {
        lemma_walk_prefix(node, names, j + 1);
        assert(names.subrange(0, j + 1) =~= names.subrange(0, j).push(names[j]));
        lemma_walk_push(node, names.subrange(0, j), names[j]);
    } else {
        assert(names.subrange(0, j) =~= names);
    }
}

/// `o` with `acc` put before its index path.
pub open spec fn after_indices(acc: Seq<usize>, o: Option<(Seq<usize>, DiskNode)>) -> Option<
    (Seq<usize>, DiskNode),
> {
    match o {
        None => None,
        Some((idx, n)) => Some((acc + idx, n)),
    }
}

/// The node reached by following `names` from `root`, if each name is found.
pub open spec fn node_by_names(root: DiskNode, names: Seq<Seq<char>>) -> Option<DiskNode> {
    match walk_names(root, names) {
        Some((_, n)) => Some(n),
        None => None,
    }
}

/// Walks `names` from `root`: the child indices taken and the node reached.
pub fn walk_name_path<'a>(root: &'a DiskNode, names: &[String]) -> (r: Option<(Vec<usize>, &'a DiskNode)>)
    ensures
        match walk_names(*root, texts(names@)) {
            Some((idx, n)) => r matches Some(p) && p.0@ == idx && *p.1 == n,
            None => r is None,
        },
{
    let mut node = root;
    let mut indices: Vec<usize> = Vec::new();
    let mut i: usize = 0;
    let ghost all = texts(names@);
    proof {
        assert(all.subrange(0, all.len() as int) =~= all);
        assert(after_indices(Seq::empty(), walk_names(*root, all)) =~= walk_names(*root, all));
    }
    while i < names.len()
        invariant
            i <= names@.len(),
            all == texts(names@),
            walk_names(*root, all) == after_indices(
                indices@,
                walk_names(*node, all.subrange(i as int, all.len() as int)),
            ),
        decreases names@.len() - i,
    {
        let ghost rest = all.subrange(i as int, all.len() as int);
        proof {
            assert(rest.drop_first() =~= all.subrange(i as int + 1, all.len() as int));
            assert(rest[0] == names@[i as int]@);
        }
        match position_of_name(node.children.as_slice(), names[i].as_str()) {
            None => {
                return None;
            },
            Some(k) => {
                proof {
                    lemma_first_named_from(node.children@, rest[0], 0);
                    let inner = walk_names(node.children@[k as int], rest.drop_first());
                    match inner {
                        Some((idx, n)) => {
                            assert(indices@.push(k) + idx =~= indices@ + (seq![k] + idx));
                        },
                        None => {},
                    }
                }
                indices.push(k);
                node = &node.children[k];
            },
        }
        i = i + 1;
    }
    proof {
        assert(all.subrange(i as int, all.len() as int) =~= Seq::<Seq<char>>::empty());
        assert(indices@ + Seq::<usize>::empty() =~= indices@);
    }
    Some((indices, node))
}

/// Resolve a filesystem path from a chain of child names under the scan root (stable
/// across sort).
pub fn resolve_fs_path_by_name_path(root_path: &str, root: &DiskNode, name_path: &[String]) -> (r:
    Option<String>)
    ensures
        match node_by_names(*root, texts(name_path@)) {
            Some(_) => r is Some && r->0@ == join_all(root_path@, texts(name_path@)),
            None => r is None,
        },
{
    match walk_name_path(root, name_path) {
        None => None,
        Some(_) => {
            let mut fs_path = String::from_str(root_path);
            let mut i: usize = 0;
            let ghost all = texts(name_path@);
            proof {
                assert(all.subrange(0, all.len() as int) =~= all);
            }
            while i < name_path.len()
                invariant
                    i <= name_path@.len(),
                    all == texts(name_path@),
                    join_all(root_path@, all) == join_all(
                        fs_path@,
                        all.subrange(i as int, all.len() as int),
                    ),
                decreases name_path@.len() - i,
            {
                proof {
                    assert(all.subrange(i as int, all.len() as int).drop_first() =~= all.subrange(
                        i as int + 1,
                        all.len() as int,
                    ));
                }
                push_component(&mut fs_path, name_path[i].as_str());
                i = i + 1;
            }
            proof {
                assert(all.subrange(i as int, all.len() as int) =~= Seq::<Seq<char>>::empty());
            }
            Some(fs_path)
        },
    }
}

/// The index path of the child named `selected` of the directory reached by `dir_names`
/// from `root`; none when `selected` is empty or a name is not found.
pub open spec fn named_selection_path(
    root: DiskNode,
    dir_names: Seq<Seq<char>>,
    selected: Seq<char>,
) -> Option<Seq<usize>> {
    if selected.len() == 0 {
        None
    } else {
        match walk_names(root, dir_names) {
            None => None,
            Some((idx, dir)) => {
                let k = first_named(dir.children@, selected);
                if k < 0 {
                    None
                } else {
                    Some(idx.push(k as usize))
                }
            },
        }
    }
}

/// Path indices for a view directory plus selected child name (stable across sort).
pub fn path_indices_for_named_selection(
    root: &DiskNode,
    view_dir_name_path: &[String],
    selected_name: &str,
) -> (r: Option<Vec<usize>>)
    ensures
        match named_selection_path(*root, texts(view_dir_name_path@), selected_name@) {
            Some(p) => r is Some && r->0@ == p,
            None => r is None,
        },
{
    if selected_name.is_empty() {
        return None;
    }
    match walk_name_path(root, view_dir_name_path) {
        None => None,
        Some((indices, node)) => {
            match position_of_name(node.children.as_slice(), selected_name) {
                None => None,
                Some(k) => {
                    let mut indices = indices;
                    indices.push(k);
                    Some(indices)
                },
            }
        },
    }
}

proof fn lemma_first_row_with_path(rows: Seq<FlatRow>, p: Seq<Seq<char>>, i: int)
    requires
        0 <= i,
    ensures
        first_row_with_path(rows, p, i) == -1 || (i <= first_row_with_path(rows, p, i) < rows.len()
            && texts(rows[first_row_with_path(rows, p, i)].name_path@) == p),
        first_row_with_path(rows, p, i) == -1 ==> forall|j: int|
            i <= j < rows.len() ==> texts(#[trigger] rows[j].name_path@) != p,
        forall|j: int|
            i <= j < first_row_with_path(rows, p, i) ==> texts(#[trigger] rows[j].name_path@) != p,
    decreases rows.len() - i,
{
    if i < rows.len() {
        lemma_first_row_with_path(rows, p, i + 1);
    }
}

/// Drilling out of the tree view: on an expanded directory it collapses that directory
/// and leaves the cursor; on any other row whose name path has more than one name it
/// moves the cursor to the first row whose name path is that path without its last
/// name, the row of the parent directory, when that row is shown; otherwise nothing
/// changes.
pub proof fn lemma_drill_out_goes_to_parent(m: TreeModel, rows: Seq<FlatRow>)
    requires
        rows.len() <= usize::MAX,
    ensures
        ({
            let new = tree_drill_out_spec(m, rows);
            let c = m.cursor as int;
            if c >= rows.len() {
                new == m
            } else {
                let p = texts(rows[c].name_path@);
                if rows[c].node_type == NodeType::Dir && m.expanded.contains(p) {
                    new.cursor == m.cursor && new.expanded == m.expanded.remove(p)
                        && new.list_selected == m.list_selected
                } else if p.len() > 1 && exists|j: int|
                    0 <= j < rows.len() && texts(#[trigger] rows[j].name_path@) == p.subrange(
                        0,
                        p.len() - 1,
                    ) {
                    &&& new.cursor < rows.len()
                    &&& texts(rows[new.cursor as int].name_path@) == p.subrange(0, p.len() - 1)
                    &&& forall|j: int|
                        0 <= j < new.cursor ==> texts(#[trigger] rows[j].name_path@) != p.subrange(
                            0,
                            p.len() - 1,
                        )
                    &&& new.expanded == m.expanded
                    &&& new.list_selected == Some(new.cursor)
                } else {
                    new == m
                }
            }
        }),
{
    let c = m.cursor as int;
    if c < rows.len() {
        let p = texts(rows[c].name_path@);
        let q = p.subrange(0, p.len() - 1);
        assert(p.drop_last() =~= q);
        lemma_first_row_with_path(rows, q, 0);
        let parent = first_row_with_path(rows, q, 0);
        if !(rows[c].node_type == NodeType::Dir && m.expanded.contains(p)) && p.len() > 1 {
            if exists|j: int| 0 <= j < rows.len() && texts(#[trigger] rows[j].name_path@) == q {
                let j = choose|j: int| 0 <= j < rows.len() && texts(#[trigger] rows[j].name_path@) == q;
                assert(parent >= 0);
                assert(tree_drill_out_spec(m, rows).cursor == parent as usize);
            } else {
                assert(parent == -1);
            }
        }
    }
}

/// A node reached by a non-empty index path is a child of the node reached by the path
/// without its last index.
pub proof fn lemma_node_at_parent(root: DiskNode, path: Seq<usize>)
    requires
        path.len() > 0,
        node_at(root, path) is Some,
    ensures
        node_at(root, path.drop_last()) is Some,
        (path.last() as int) < node_at(root, path.drop_last())->0.children@.len(),
        node_at(root, path) == Some(node_at(root, path.drop_last())->0.children@[path.last() as int]),
    decreases path.len(),
{
    if path.len() == 1 {
        assert(path.drop_last() =~= Seq::<usize>::empty());
        assert(path.drop_first() =~= Seq::<usize>::empty());
    } else {
        let c = root.children@[path[0] as int];
        lemma_node_at_parent(c, path.drop_first());
        assert(path.drop_first().drop_last() =~= path.drop_last().drop_first());
        assert(path.drop_last()[0] == path[0]);
        assert(path.drop_first().last() == path.last());
    }
}

/// Following an index path that leads somewhere passes one name per index.
pub proof fn lemma_names_len(root: DiskNode, path: Seq<usize>)
    requires
        node_at(root, path) is Some,
    ensures
        names_on_path(root, path).len() == path.len(),
    decreases path.len(),
{
    if path.len() > 0 {
        lemma_names_len(root.children@[path[0] as int], path.drop_first());
    }
}

} // verus!

