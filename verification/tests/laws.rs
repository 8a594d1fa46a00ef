use dusk::model::metadata::days_to_ymd;
use dusk::model::node::{DiskNode, NodeType};
use dusk::model::order::{compare_nodes, SortConfig, SortField};
use std::cmp::Ordering;
use dusk::scanner::walker::{ProcessedEntry, ScanState, ScanUpdate};
use dusk::tui::views::tree::{flatten_tree, resolve_node, NamePathSet};
use dusk::tui::widgets::progress::format_number;

fn deep_tree() -> DiskNode {
    let mut root = DiskNode::new("root".into(), 0, NodeType::Dir, 0);
    let mut a = DiskNode::new("a".into(), 7, NodeType::Dir, 1);
    let mut b = DiskNode::new("b".into(), 5, NodeType::Dir, 2);
    b.children.push(DiskNode::new("x.txt".into(), 5, NodeType::File, 3));
    a.children.push(b);
    a.children.push(DiskNode::new("y.txt".into(), 2, NodeType::File, 2));
    root.children.push(a);
    root.children.push(DiskNode::new("z".into(), 1, NodeType::Symlink, 1));
    root
}

#[test]
fn every_row_points_at_its_node() {
    let tree = deep_tree();
    let mut expanded = NamePathSet::new();
    expanded.insert(vec!["a".to_string()]);
    expanded.insert(vec!["a".to_string(), "b".to_string()]);
    let rows = flatten_tree(&tree, &expanded);
    assert_eq!(rows.len(), 5);
    for row in &rows {
        let node = resolve_node(&tree, &row.path_indices).unwrap();
        assert_eq!(node.name, row.name);
        assert_eq!(node.size, row.size);
        assert_eq!(node.node_type, row.node_type);
        let mut names = Vec::new();
        let mut n = &tree;
        for &i in &row.path_indices {
            n = &n.children[i];
            names.push(n.name.clone());
        }
        assert_eq!(names, row.name_path);
    }
}

#[test]
fn grouping_only_inserts_commas() {
    for n in [0u64, 7, 999, 1000, 65_536, 1_000_001, 9_876_543_210, u64::MAX] {
        assert_eq!(format_number(n).replace(',', ""), n.to_string());
    }
}

#[test]
fn directory_sizes_add_up() {
    let mut state = ScanState::new();
    let entries = [
        (vec!["d"], 0, NodeType::Dir),
        (vec!["d", "e"], 0, NodeType::Dir),
        (vec!["d", "e", "f"], 4, NodeType::File),
        (vec!["d", "g"], 6, NodeType::File),
        (vec!["h"], 3, NodeType::File),
    ];
    for (path, size, node_type) in entries {
        state.absorb(ProcessedEntry {
            components: path.iter().map(|s| s.to_string()).collect(),
            size,
            node_type,
            modified: None,
            inode_key: None,
        });
    }
    fn check(n: &DiskNode) {
        if n.node_type == NodeType::Dir {
            assert_eq!(n.size, n.children.iter().map(|c| c.size).sum::<u64>());
        }
        n.children.iter().for_each(check);
    }
    match state.finish("root".into()) {
        ScanUpdate::Complete { root, .. } => {
            assert_eq!(root.size, 13);
            check(&root);
        }
        _ => panic!("expected a completed tree"),
    }
}

#[test]
fn node_order_is_a_total_preorder() {
    let nodes = [
        DiskNode::new("b".into(), 3, NodeType::File, 0),
        DiskNode::new("a".into(), 3, NodeType::File, 0),
        DiskNode::new("ab".into(), 9, NodeType::Dir, 0),
    ];
    let configs = [
        SortConfig { field: SortField::Size, ascending: true },
        SortConfig { field: SortField::Name, ascending: false },
        SortConfig { field: SortField::Files, ascending: true },
        SortConfig { field: SortField::Modified, ascending: false },
    ];
    for c in configs {
        for x in &nodes {
            assert_eq!(compare_nodes(x, x, c), Ordering::Equal);
            for y in &nodes {
                assert_eq!(compare_nodes(x, y, c), compare_nodes(y, x, c).reverse());
                for z in &nodes {
                    if compare_nodes(x, y, c) != Ordering::Greater
                        && compare_nodes(y, z, c) != Ordering::Greater
                    {
                        assert_ne!(compare_nodes(x, z, c), Ordering::Greater);
                    }
                }
            }
        }
    }
}

#[test]
fn sorting_keeps_file_and_directory_counts() {
    let mut tree = deep_tree();
    let (files, dirs) = (tree.total_files(), tree.total_dirs());
    tree.sort_children(&SortConfig { field: SortField::Name, ascending: false });
    assert_eq!(tree.children[0].name, "z");
    assert_eq!((tree.total_files(), tree.total_dirs()), (files, dirs));
}

fn month_length(y: u64, m: u64) -> u64 {
    let leap = y % 4 == 0 && (y % 100 != 0 || y % 400 == 0);
    match m {
        2 => if leap { 29 } else { 28 },
        4 | 6 | 9 | 11 => 30,
        _ => 31,
    }
}

#[test]
fn days_follow_the_calendar() {
    assert_eq!(days_to_ymd(0), (1970, 1, 1));
    assert_eq!(days_to_ymd(19782), (2024, 2, 29));
    assert_eq!(days_to_ymd(19783), (2024, 3, 1));
    assert_eq!(days_to_ymd(10956), (1999, 12, 31));
    assert_eq!(days_to_ymd(10957), (2000, 1, 1));
    let mut prev = days_to_ymd(0);
    for n in 1..200_000u64 {
        let (y, m, d) = days_to_ymd(n);
        assert!((1..=12).contains(&m) && d >= 1 && d <= month_length(y, m));
        let (py, pm, pd) = prev;
        let expected = if pd < month_length(py, pm) {
            (py, pm, pd + 1)
        } else if pm < 12 {
            (py, pm + 1, 1)
        } else {
            (py + 1, 1, 1)
        };
        assert_eq!((y, m, d), expected);
        prev = (y, m, d);
    }
}

#[test]
fn sorting_keeps_the_tree_rows_by_name_path() {
    let mut tree = deep_tree();
    let mut expanded = NamePathSet::new();
    expanded.insert(vec!["a".to_string()]);
    expanded.insert(vec!["a".to_string(), "b".to_string()]);
    let key = |rows: Vec<dusk::tui::views::tree::FlatRow>| {
        let mut v: Vec<(Vec<String>, String, u64, bool, bool, usize)> = rows
            .into_iter()
            .map(|r| (r.name_path, r.name, r.size, r.is_expanded, r.has_children, r.depth))
            .collect();
        v.sort();
        v
    };
    let before = key(flatten_tree(&tree, &expanded));
    tree.sort_children(&SortConfig { field: SortField::Name, ascending: false });
    let after_rows = flatten_tree(&tree, &expanded);
    assert_eq!(after_rows[0].name, "z");
    assert_eq!(key(after_rows), before);
}
