use dusk::model::metadata::{days_to_ymd, format_permissions, format_time, mime_type_for, FileMetadata};
use dusk::model::node::{DiskNode, NodeType};
use dusk::model::order::{compare_nodes, text_sign, SortConfig, SortField};
use std::cmp::Ordering;

fn sample_tree() -> DiskNode {
    let mut root = DiskNode::new("root".into(), 511, NodeType::Dir, 0);
    let mut big_dir = DiskNode::new("big_dir".into(), 500, NodeType::Dir, 1);
    big_dir.children.push(DiskNode::new("b.dat".into(), 200, NodeType::File, 2));
    big_dir.children.push(DiskNode::new("a.dat".into(), 300, NodeType::File, 2));
    let mut small_dir = DiskNode::new("small_dir".into(), 10, NodeType::Dir, 1);
    small_dir.children.push(DiskNode::new("c.txt".into(), 10, NodeType::File, 2));
    let readme = DiskNode::new("readme.md".into(), 1, NodeType::File, 1);
    root.children.push(readme);
    root.children.push(small_dir);
    root.children.push(big_dir);
    root.size = 511;
    root
}

#[test]
fn test_format_permissions() {
    assert_eq!(format_permissions(0o100755), "-rwxr-xr-x");
    assert_eq!(format_permissions(0o100644), "-rw-r--r--");
    assert_eq!(format_permissions(0o040755), "drwxr-xr-x");
    assert_eq!(format_permissions(0o104755), "-rwsr-xr-x");
    assert_eq!(format_permissions(0o101777), "-rwxrwxrwt");
}

#[test]
fn test_days_to_ymd() {
    // 2024-01-01 is day 19723 since epoch
    let (y, m, d) = days_to_ymd(19723);
    assert_eq!((y, m, d), (2024, 1, 1));
}

#[test]
fn test_total_files() {
    let tree = sample_tree();
    assert_eq!(tree.total_files(), 4); // a.dat, b.dat, c.txt, readme.md
}

#[test]
fn test_total_dirs() {
    let tree = sample_tree();
    assert_eq!(tree.total_dirs(), 2); // big_dir, small_dir
}

#[test]
fn test_sort_children_by_size() {
    let mut tree = sample_tree();
    tree.sort_children_by_size();

    assert_eq!(tree.children[0].name, "big_dir");
    assert_eq!(tree.children[1].name, "small_dir");
    assert_eq!(tree.children[2].name, "readme.md");

    // Children of big_dir should also be sorted
    assert_eq!(tree.children[0].children[0].name, "a.dat");
    assert_eq!(tree.children[0].children[1].name, "b.dat");
}

#[test]
fn sorting_keeps_equal_sizes_in_order_and_counts_unchanged() {
    let mut root = DiskNode::new("root".into(), 30, NodeType::Dir, 0);
    root.children.push(DiskNode::new("x".into(), 10, NodeType::File, 1));
    root.children.push(DiskNode::new("y".into(), 10, NodeType::File, 1));
    root.children.push(DiskNode::new("z".into(), 10, NodeType::Dir, 1));
    let files = root.total_files();
    let dirs = root.total_dirs();
    root.sort_children_by_size();
    let names: Vec<&str> = root.children.iter().map(|c| c.name.as_str()).collect();
    assert_eq!(names, vec!["x", "y", "z"]);
    assert_eq!(root.total_files(), files);
    assert_eq!(root.total_dirs(), dirs);
}

#[test]
fn days_to_ymd_handles_epoch_and_leap_day() {
    assert_eq!(days_to_ymd(0), (1970, 1, 1));
    // 2000-02-29 is day 11016
    assert_eq!(days_to_ymd(11016), (2000, 2, 29));
    assert_eq!(days_to_ymd(11017), (2000, 3, 1));
}

#[test]
fn format_time_renders_utc_timestamp() {
    // 2024-01-01 12:34:56 UTC
    let secs: i128 = 19723 * 86400 + 12 * 3600 + 34 * 60 + 56;
    assert_eq!(format_time(secs * 1_000_000_000), "2024-01-01 12:34 UTC");
    assert_eq!(format_time(-1), "unknown");
}

#[test]
fn format_permissions_file_types() {
    assert_eq!(format_permissions(0o120777), "lrwxrwxrwx");
    assert_eq!(format_permissions(0o140755), "srwxr-xr-x");
    assert_eq!(format_permissions(0o020644), "crw-r--r--");
    assert_eq!(format_permissions(0o060644), "brw-r--r--");
    assert_eq!(format_permissions(0o010644), "prw-r--r--");
    assert_eq!(format_permissions(0o102644), "-rw-r-Sr--");
}

#[test]
fn mime_type_for_directory_and_detected_file() {
    assert_eq!(mime_type_for(NodeType::Dir, None), "inode/directory");
    assert_eq!(mime_type_for(NodeType::Symlink, None), "inode/symlink");
    assert_eq!(
        mime_type_for(NodeType::File, Some("text/plain".to_string())),
        "text/plain"
    );
    assert_eq!(mime_type_for(NodeType::File, None), "application/octet-stream");
}

#[test]
fn metadata_lines_list_every_field() {
    let meta = FileMetadata {
        size: 2048,
        permissions: "-rw-r--r--".to_string(),
        uid: 1000,
        gid: 100,
        modified: Some(0),
        created: None,
        inode: 42,
        hard_links: 1,
        mime_type: "text/plain".to_string(),
    };
    let lines = meta.to_lines("notes.txt");
    assert_eq!(lines[0], "  Name: notes.txt");
    assert_eq!(lines[1], "  Size: 2 KiB");
    assert!(lines.iter().any(|l| l == "  Owner: 1000:100"));
    assert!(lines.iter().any(|l| l == "  Modified: 1970-01-01 00:00 UTC"));
    assert_eq!(lines.last().unwrap(), "  MIME: text/plain");
}

fn child_names(node: &DiskNode) -> Vec<String> {
    node.children.iter().map(|c| c.name.clone()).collect()
}

#[test]
fn sort_children_by_name_ascending_and_descending() {
    let mut tree = sample_tree();
    let by_name = SortConfig { field: SortField::Name, ascending: true };
    tree.sort_children(&by_name);
    assert_eq!(child_names(&tree), vec!["big_dir", "readme.md", "small_dir"]);
    assert_eq!(child_names(&tree.children[0]), vec!["a.dat", "b.dat"]);

    let by_name_desc = SortConfig { field: SortField::Name, ascending: false };
    tree.sort_children(&by_name_desc);
    assert_eq!(child_names(&tree), vec!["small_dir", "readme.md", "big_dir"]);
    assert_eq!(child_names(&tree.children[2]), vec!["b.dat", "a.dat"]);
    assert_eq!(tree.total_files(), 4);
    assert_eq!(tree.total_dirs(), 2);
}

#[test]
fn sort_children_by_size_files_and_modified() {
    let mut tree = sample_tree();
    tree.sort_children(&SortConfig { field: SortField::Size, ascending: true });
    assert_eq!(child_names(&tree), vec!["readme.md", "small_dir", "big_dir"]);

    tree.sort_children(&SortConfig::default());
    assert_eq!(child_names(&tree), vec!["big_dir", "small_dir", "readme.md"]);

    // readme.md and small_dir hold one file each and keep their order.
    tree.sort_children(&SortConfig { field: SortField::Files, ascending: false });
    assert_eq!(child_names(&tree), vec!["big_dir", "small_dir", "readme.md"]);
    tree.sort_children(&SortConfig { field: SortField::Files, ascending: true });
    assert_eq!(child_names(&tree), vec!["small_dir", "readme.md", "big_dir"]);

    tree.children[0].modified = Some(20);
    tree.children[1].modified = None;
    tree.children[2].modified = Some(-5);
    tree.sort_children(&SortConfig { field: SortField::Modified, ascending: true });
    assert_eq!(child_names(&tree), vec!["readme.md", "big_dir", "small_dir"]);
}

#[test]
fn name_order_is_by_code_point_with_prefix_first() {
    assert_eq!(text_sign("abc", "abd"), -1);
    assert_eq!(text_sign("abc", "ab"), 1);
    assert_eq!(text_sign("", ""), 0);
    assert_eq!(text_sign("Zeta", "alpha"), -1);
    assert_eq!(text_sign("é", "z"), 1);
}

#[test]
fn sort_field_cycles_and_labels() {
    assert_eq!(SortField::Size.next(), SortField::Name);
    assert_eq!(SortField::Name.next(), SortField::Modified);
    assert_eq!(SortField::Modified.next(), SortField::Files);
    assert_eq!(SortField::Files.next(), SortField::Size);
    assert_eq!(SortField::Modified.label(), "Modified");
    let default = SortConfig::default();
    assert_eq!(default.field, SortField::Size);
    assert!(!default.ascending);
}

#[test]
fn compare_nodes_follows_the_configuration() {
    let small = DiskNode::new("b".into(), 1, NodeType::File, 0);
    let large = DiskNode::new("a".into(), 2, NodeType::File, 0);
    let desc = SortConfig::default();
    assert_eq!(compare_nodes(&large, &small, desc), Ordering::Less);
    let by_name = SortConfig { field: SortField::Name, ascending: true };
    assert_eq!(compare_nodes(&small, &large, by_name), Ordering::Greater);
    assert_eq!(compare_nodes(&small, &small, by_name), Ordering::Equal);
    assert_eq!(small.capped_file_count(), 1);
}
