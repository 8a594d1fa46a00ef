use dusk::model::node::{DiskNode, NodeType};
use dusk::tui::filter::FilterCriteria;
use dusk::tui::views::bar::BarState;
use dusk::tui::views::nav::ViewNavState;
use dusk::tui::views::sunburst::{braille_bit, SegmentSlot, SunburstState};
use dusk::tui::views::tree::{
    filter_visible_child_indices, flatten_tree, flatten_tree_filtered, resolve_fs_path,
    resolve_fs_path_by_name_path, resolve_node, NamePathSet, TreeViewState,
};
use dusk::tui::views::treemap::{
    layout_fits, visible_treemap_child_indices, Area, TreemapRect, TreemapState,
};

fn nav_tree() -> DiskNode {
    let mut root = DiskNode::new("root".into(), 511, NodeType::Dir, 0);
    let mut big_dir = DiskNode::new("big_dir".into(), 500, NodeType::Dir, 1);
    big_dir.children.push(DiskNode::new("a.dat".into(), 300, NodeType::File, 2));
    big_dir.children.push(DiskNode::new("b.dat".into(), 200, NodeType::File, 2));
    let small_dir = DiskNode::new("small_dir".into(), 10, NodeType::Dir, 1);
    let readme = DiskNode::new("readme.md".into(), 1, NodeType::File, 1);
    root.children.push(big_dir);
    root.children.push(small_dir);
    root.children.push(readme);
    root
}

fn tree_sample() -> DiskNode {
    let mut root = DiskNode::new("root".into(), 511, NodeType::Dir, 0);
    let mut big_dir = DiskNode::new("big_dir".into(), 500, NodeType::Dir, 1);
    big_dir.children.push(DiskNode::new("a.dat".into(), 300, NodeType::File, 2));
    big_dir.children.push(DiskNode::new("b.dat".into(), 200, NodeType::File, 2));
    let mut small_dir = DiskNode::new("small_dir".into(), 10, NodeType::Dir, 1);
    small_dir.children.push(DiskNode::new("c.txt".into(), 10, NodeType::File, 2));
    let readme = DiskNode::new("readme.md".into(), 1, NodeType::File, 1);
    root.children.push(big_dir);
    root.children.push(small_dir);
    root.children.push(readme);
    root
}

#[test]
fn test_nav_basic() {
    let tree = nav_tree();
    let mut nav = ViewNavState::new();
    nav.ensure_valid_selection(&tree, None);
    assert_eq!(
        filter_visible_child_indices(nav.resolve_view_root(&tree).unwrap(), None).len(),
        3
    );
    assert_eq!(nav.selected_name, "big_dir");

    nav.move_next(&tree, None);
    assert_eq!(nav.selected_name, "small_dir");
    nav.move_next(&tree, None);
    assert_eq!(nav.selected_name, "readme.md");
    nav.move_next(&tree, None);
    assert_eq!(nav.selected_name, "readme.md");

    nav.move_prev(&tree, None);
    assert_eq!(nav.selected_name, "small_dir");
}

#[test]
fn nav_test_drill_in_out() {
    let tree = nav_tree();
    let mut nav = ViewNavState::new();
    nav.ensure_valid_selection(&tree, None);
    assert_eq!(nav.selected_name, "big_dir");

    nav.drill_in(&tree, None);
    assert_eq!(nav.view_dir_name_path, vec!["big_dir".to_string()]);
    assert_eq!(nav.selected_name, "a.dat");
    assert_eq!(
        filter_visible_child_indices(nav.resolve_view_root(&tree).unwrap(), None).len(),
        2
    );

    nav.drill_in(&tree, None);
    assert_eq!(nav.view_dir_name_path, vec!["big_dir".to_string()]);

    nav.drill_out(&tree, None);
    assert_eq!(nav.view_dir_name_path, Vec::<String>::new());
    assert_eq!(nav.selected_name, "big_dir");
}

#[test]
fn nav_path_indices_and_missing_directory() {
    let tree = nav_tree();
    let mut nav = ViewNavState::new();
    nav.view_dir_name_path = vec!["big_dir".to_string()];
    nav.selected_name = "b.dat".to_string();
    assert_eq!(nav.path_indices(&tree), Some(vec![0, 1]));
    nav.view_dir_name_path = vec!["gone".to_string()];
    assert_eq!(nav.path_indices(&tree), None);
    nav.ensure_valid_selection(&tree, None);
    assert!(nav.view_dir_name_path.is_empty());
    assert_eq!(nav.selected_name, "");
    // Once the directory exists, a second call settles on a visible child and stays.
    nav.ensure_valid_selection(&tree, None);
    assert_eq!(nav.selected_name, "big_dir");
    nav.ensure_valid_selection(&tree, None);
    assert_eq!(nav.selected_name, "big_dir");
}

#[test]
fn nav_skips_children_hidden_by_filter() {
    let tree = nav_tree();
    let filter = FilterCriteria::SizeRange { min: Some(250), max: None };
    let mut nav = ViewNavState::new();
    nav.ensure_valid_selection(&tree, Some(&filter));
    // small_dir has no matching file, readme.md is too small
    assert_eq!(nav.selected_name, "big_dir");
    nav.move_next(&tree, Some(&filter));
    assert_eq!(nav.selected_name, "big_dir");
    nav.drill_in(&tree, Some(&filter));
    assert_eq!(nav.selected_name, "a.dat");
}

#[test]
fn test_flatten_collapsed() {
    let tree = tree_sample();
    let expanded = NamePathSet::new();
    let rows = flatten_tree(&tree, &expanded);

    assert_eq!(rows.len(), 3); // big_dir, small_dir, readme.md
    assert_eq!(rows[0].name, "big_dir");
    assert!(!rows[0].is_expanded);
    assert_eq!(rows[0].name_path, vec!["big_dir"]);
    assert_eq!(rows[1].name, "small_dir");
    assert_eq!(rows[2].name, "readme.md");
}

#[test]
fn test_flatten_expanded() {
    let tree = tree_sample();
    let mut expanded = NamePathSet::new();
    expanded.insert(vec!["big_dir".to_string()]); // expand big_dir by name

    let rows = flatten_tree(&tree, &expanded);

    assert_eq!(rows.len(), 5); // big_dir, a.dat, b.dat, small_dir, readme.md
    assert_eq!(rows[0].name, "big_dir");
    assert!(rows[0].is_expanded);
    assert_eq!(rows[1].name, "a.dat");
    assert_eq!(rows[1].depth, 2);
    assert_eq!(
        rows[1].name_path,
        vec!["big_dir".to_string(), "a.dat".to_string()]
    );
    assert_eq!(rows[2].name, "b.dat");
    assert_eq!(rows[3].name, "small_dir");
}

#[test]
fn flatten_filtered_prunes_directories_without_matches() {
    let tree = tree_sample();
    let mut expanded = NamePathSet::new();
    expanded.insert(vec!["big_dir".to_string()]);
    let filter = FilterCriteria::Extension("txt".into());
    let rows = flatten_tree_filtered(&tree, &expanded, Some(&filter));
    let names: Vec<&str> = rows.iter().map(|r| r.name.as_str()).collect();
    assert_eq!(names, vec!["small_dir"]);
}

#[test]
fn test_navigation() {
    let tree = tree_sample();
    let expanded = NamePathSet::new();
    let rows = flatten_tree(&tree, &expanded);
    let mut state = TreeViewState::new();

    assert_eq!(state.cursor, 0);
    state.move_down(rows.len());
    assert_eq!(state.cursor, 1);
    state.move_down(rows.len());
    assert_eq!(state.cursor, 2);
    state.move_down(rows.len()); // at end, should clamp
    assert_eq!(state.cursor, 2);
    state.move_up();
    assert_eq!(state.cursor, 1);
    state.move_up();
    assert_eq!(state.cursor, 0);
    state.move_up(); // at start, should clamp
    assert_eq!(state.cursor, 0);
}

#[test]
fn tree_test_drill_in_out() {
    let tree = tree_sample();
    let mut state = TreeViewState::new();

    let rows = flatten_tree(&tree, &state.expanded);
    assert_eq!(rows.len(), 3);

    // Drill into big_dir (index 0)
    state.drill_in(&rows);
    let rows = flatten_tree(&tree, &state.expanded);
    assert_eq!(rows.len(), 5);
    assert_eq!(state.cursor, 1); // moved to first child

    // Drill out from child
    state.drill_out(&rows);
    assert_eq!(state.cursor, 0); // back to big_dir
}

#[test]
fn toggle_twice_restores_rows() {
    let tree = tree_sample();
    let mut state = TreeViewState::new();
    let rows = flatten_tree(&tree, &state.expanded);
    state.toggle_expand(&rows);
    assert_eq!(flatten_tree(&tree, &state.expanded).len(), 5);
    state.toggle_expand(&rows);
    assert_eq!(flatten_tree(&tree, &state.expanded).len(), 3);
    assert!(!state.expanded.contains(&["big_dir".to_string()]));
}

#[test]
fn test_resolve_node() {
    let tree = tree_sample();
    let node = resolve_node(&tree, &[0]).unwrap();
    assert_eq!(node.name, "big_dir");

    let node = resolve_node(&tree, &[0, 1]).unwrap();
    assert_eq!(node.name, "b.dat");

    assert!(resolve_node(&tree, &[5]).is_none());
}

#[test]
fn test_resolve_fs_path() {
    let tree = tree_sample();
    let root_path = "/tmp/test";
    let fs_path = resolve_fs_path(root_path, &tree, &[0, 1]).unwrap();
    assert_eq!(fs_path, "/tmp/test/big_dir/b.dat");
}

#[test]
fn test_clamp_cursor() {
    let mut state = TreeViewState::new();
    state.cursor = 10;
    state.clamp_cursor(3);
    assert_eq!(state.cursor, 2);

    state.clamp_cursor(0);
    assert_eq!(state.cursor, 0);
}

#[test]
fn test_resolve_fs_path_with_unicode_name() {
    let mut tree = DiskNode::new("root".into(), 10, NodeType::Dir, 0);
    tree.children
        .push(DiskNode::new("日本語.txt".into(), 10, NodeType::File, 1));

    let root_path = "/tmp/test";
    let fs_path = resolve_fs_path(root_path, &tree, &[0]).unwrap();
    assert_eq!(fs_path, "/tmp/test/日本語.txt");
}

#[test]
fn resolve_fs_path_by_names_and_trailing_slash() {
    let tree = tree_sample();
    let names = vec!["small_dir".to_string(), "c.txt".to_string()];
    assert_eq!(
        resolve_fs_path_by_name_path("/tmp/test/", &tree, &names),
        Some("/tmp/test/small_dir/c.txt".to_string())
    );
    assert_eq!(
        resolve_fs_path_by_name_path("/tmp/test", &tree, &["nope".to_string()]),
        None
    );
}

#[test]
fn remove_node_takes_size_off_ancestors() {
    let mut tree = tree_sample();
    assert_eq!(tree.remove_node(&[0, 0]), Some(300));
    assert_eq!(tree.size, 211);
    assert_eq!(tree.children[0].size, 200);
    assert_eq!(tree.children[0].children.len(), 1);
    assert_eq!(tree.children[0].children[0].name, "b.dat");
    assert_eq!(tree.remove_node(&[9]), None);
    assert_eq!(tree.remove_node(&[]), None);
    assert_eq!(tree.size, 211);
}

#[test]
fn test_visible_treemap_child_indices_skip_zero_sized() {
    let mut node = DiskNode::new("root".into(), 10, NodeType::Dir, 0);
    node.children
        .push(DiskNode::new("zero".into(), 0, NodeType::File, 1));
    node.children
        .push(DiskNode::new("ten".into(), 10, NodeType::File, 1));

    assert_eq!(visible_treemap_child_indices(&node, None), vec![1]);
}

fn rect(x: u16, y: u16, width: u16, height: u16, child_index: usize) -> TreemapRect {
    TreemapRect {
        x,
        y,
        width,
        height,
        child_index,
        name: format!("c{child_index}"),
        size: 1,
        node_type: NodeType::File,
    }
}

#[test]
fn treemap_navigation_moves_between_rects() {
    // Left column: child 0; right column: child 1 on top of child 2.
    let rects = vec![rect(0, 0, 20, 20, 0), rect(20, 0, 20, 10, 1), rect(20, 10, 20, 10, 2)];
    assert!(layout_fits(&rects));
    let mut state = TreemapState::new();
    let visible = vec![0, 1, 2];
    assert!(state.needs_layout(Area::new(0, 0, 40, 20), &visible));
    state.store_layout(rects, Area::new(0, 0, 40, 20), &visible);
    assert!(!state.needs_layout(Area::new(0, 0, 40, 20), &visible));
    assert!(state.needs_layout(Area::new(0, 0, 41, 20), &visible));
    assert_eq!(state.navigate(0, 1, 0), 1);
    assert_eq!(state.navigate(1, 0, 1), 2);
    assert_eq!(state.navigate(2, 0, -1), 1);
    assert_eq!(state.navigate(1, -1, 0), 0);
    // Nothing to the left of the left column: stay.
    assert_eq!(state.navigate(0, -1, 0), 0);
    state.invalidate();
    assert_eq!(state.navigate(5, 1, 0), 5);
    assert!(!layout_fits(&vec![rect(16000, 0, 1000, 1, 0)]));
}

#[test]
fn test_sunburst_state_navigation() {
    let mut state = SunburstState::new();
    state.cached_segments = vec![
        SegmentSlot { child_index: 0, ring: 0 },
        SegmentSlot { child_index: 1, ring: 0 },
    ];

    assert_eq!(state.selected_ring, 0);
    assert_eq!(state.selected_segment, 0);

    state.move_angular_next();
    assert_eq!(state.selected_segment, 1);

    state.move_angular_next();
    assert_eq!(state.selected_segment, 0);

    state.move_angular_prev();
    assert_eq!(state.selected_segment, 1);
}

#[test]
fn sunburst_rings() {
    let mut state = SunburstState::new();
    state.store_layout(
        vec![
            SegmentSlot { child_index: 0, ring: 0 },
            SegmentSlot { child_index: 0, ring: 1 },
            SegmentSlot { child_index: 1, ring: 0 },
        ],
        Area::new(0, 0, 10, 10),
    );
    assert_eq!(state.segments_in_ring(0), vec![0, 2]);
    state.move_angular_next();
    assert_eq!(state.selected_child_index(), Some(1));
    state.move_ring_out();
    assert_eq!(state.selected_ring, 1);
    assert_eq!(state.selected_child_index(), Some(0));
    state.move_ring_out();
    assert_eq!(state.selected_ring, 1);
    state.move_ring_in();
    assert_eq!(state.selected_ring, 0);
    assert_eq!(state.selected_segment, 0);
}

#[test]
fn test_braille_bits() {
    assert_eq!(braille_bit(0, 0), 0x01);
    assert_eq!(braille_bit(1, 3), 0x80);
    let full: u8 = braille_bit(0, 0)
        | braille_bit(0, 1)
        | braille_bit(0, 2)
        | braille_bit(0, 3)
        | braille_bit(1, 0)
        | braille_bit(1, 1)
        | braille_bit(1, 2)
        | braille_bit(1, 3);
    assert_eq!(full, 0xFF);
    assert_eq!(char::from_u32(0x2800 + full as u32), Some('⣿'));
    assert_eq!(braille_bit(2, 0), 0);
}

#[test]
fn bar_state_selection() {
    let mut bar = BarState::new();
    assert_eq!(bar.selected, Some(0));
    bar.sync_selection(4);
    assert_eq!(bar.selected, Some(4));
    bar.clear_selection();
    assert_eq!(bar.selected, None);
}

fn treemap_sample_node() -> DiskNode {
    let mut root = DiskNode::new("root".into(), 100, NodeType::Dir, 0);
    root.children
        .push(DiskNode::new("big".into(), 60, NodeType::Dir, 1));
    root.children
        .push(DiskNode::new("med".into(), 30, NodeType::File, 1));
    root.children
        .push(DiskNode::new("sml".into(), 10, NodeType::File, 1));
    root
}

#[test]
fn test_spatial_navigation() {
    // The rectangles the squarified layout gives the sample in a 40x20 area: `big` on
    // the left, `med` above `sml` on the right.
    let node = treemap_sample_node();
    let area = Area::new(0, 0, 40, 20);
    let mut state = TreemapState::new();
    let visible: Vec<usize> = (0..node.children.len()).collect();
    let rects = vec![rect(0, 0, 24, 20, 0), rect(24, 0, 16, 15, 1), rect(24, 15, 16, 5, 2)];
    assert!(layout_fits(&rects));
    state.store_layout(rects, area, &visible);

    // Should be able to navigate between rects (navigate returns child index)
    let next = state.navigate(0, 1, 0); // move right from first child
    assert!(next < node.children.len());
    assert_eq!(next, 1);
}
