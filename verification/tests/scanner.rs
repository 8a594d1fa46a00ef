use dusk::model::node::NodeType;
use dusk::scanner::tree_build::{build_tree, RawEntry};
use dusk::scanner::walker::{root_name, ProcessedEntry, ScanState, ScanUpdate, ScanWarnings};

fn entry(path: &[&str], size: u64, node_type: NodeType, inode: Option<(u64, u64)>) -> ProcessedEntry {
    ProcessedEntry {
        components: path.iter().map(|s| s.to_string()).collect(),
        size,
        node_type,
        modified: None,
        inode_key: inode,
    }
}

#[test]
fn scan_state_counts_hard_links_once() {
    let mut state = ScanState::new();
    assert!(state.absorb(entry(&["a.txt"], 5, NodeType::File, Some((1, 10)))).is_none());
    assert!(state.absorb(entry(&["b.txt"], 5, NodeType::File, Some((1, 10)))).is_none());
    assert!(state.absorb(entry(&["c.txt"], 5, NodeType::File, Some((2, 10)))).is_none());
    assert_eq!(state.files_found, 3);
    assert_eq!(state.bytes_found, 10);
    match state.finish("root".to_string()) {
        ScanUpdate::Complete { root, warnings } => {
            assert_eq!(root.size, 10);
            assert_eq!(root.total_files(), 3);
            assert_eq!(warnings.skipped_entries, 0);
        }
        _ => panic!("expected a completed tree"),
    }
}

#[test]
fn scan_builds_sorted_tree_with_directory_totals() {
    let mut state = ScanState::new();
    state.absorb(entry(&["a.txt"], 5, NodeType::File, None));
    state.absorb(entry(&["sub"], 0, NodeType::Dir, None));
    state.absorb(entry(&["sub", "b.txt"], 10, NodeType::File, None));
    state.note_skipped();
    match state.finish("tmp".to_string()) {
        ScanUpdate::Complete { root, warnings } => {
            assert_eq!(root.name, "tmp");
            assert_eq!(root.size, 15);
            assert_eq!(root.total_files(), 2);
            assert_eq!(root.total_dirs(), 1);
            assert_eq!(root.children.len(), 2);
            assert_eq!(root.children[0].name, "sub");
            assert_eq!(root.children[0].size, 10);
            assert_eq!(root.children[0].depth, 1);
            assert_eq!(root.children[0].children[0].depth, 2);
            assert_eq!(warnings.skipped_entries, 1);
            assert_eq!(
                warnings.summary(),
                Some("Skipped 1 unreadable entries".to_string())
            );
        }
        _ => panic!("expected a completed tree"),
    }
}

#[test]
fn scan_reports_progress_every_five_hundred_entries() {
    let mut state = ScanState::new();
    let mut reports = 0;
    for i in 0..1000u64 {
        let name = format!("f{i}");
        if let Some(ScanUpdate::Progress { files_found, bytes_found }) =
            state.absorb(entry(&[name.as_str()], 1, NodeType::File, None))
        {
            reports += 1;
            assert_eq!(files_found % 500, 0);
            assert_eq!(bytes_found, files_found);
        }
    }
    assert_eq!(reports, 2);
    match state.progress() {
        ScanUpdate::Progress { files_found, bytes_found } => {
            assert_eq!((files_found, bytes_found), (1000, 1000));
        }
        _ => panic!("expected progress"),
    }
}

#[test]
fn scan_reports_error_when_totals_overflow() {
    let mut state = ScanState::new();
    state.entries.push(RawEntry {
        components: vec!["a".to_string()],
        size: u64::MAX,
        node_type: NodeType::File,
        modified: None,
    });
    state.entries.push(RawEntry {
        components: vec!["b".to_string()],
        size: 1,
        node_type: NodeType::File,
        modified: None,
    });
    assert!(matches!(state.finish("r".to_string()), ScanUpdate::Error(_)));
}

#[test]
fn build_tree_ignores_orphans_and_keeps_found_order() {
    let entries = vec![
        RawEntry { components: vec!["x".into()], size: 3, node_type: NodeType::File, modified: Some(7) },
        RawEntry { components: vec!["missing".into(), "y".into()], size: 4, node_type: NodeType::File, modified: None },
        RawEntry { components: vec!["w".into()], size: 9, node_type: NodeType::File, modified: None },
    ];
    let root = build_tree("r".to_string(), &entries).unwrap();
    let names: Vec<&str> = root.children.iter().map(|c| c.name.as_str()).collect();
    assert_eq!(names, vec!["x", "w"]);
    assert_eq!(root.size, 12);
    assert_eq!(root.children[0].modified, Some(7));
}

#[test]
fn warnings_summary_is_empty_without_skips() {
    assert_eq!(ScanWarnings::default().summary(), None);
}

#[test]
fn root_name_is_the_last_component_or_the_whole_path() {
    assert_eq!(root_name("/tmp/project"), "project");
    assert_eq!(root_name("/tmp/project/"), "project");
    assert_eq!(root_name("."), ".");
    assert_eq!(root_name("/"), "/");
}
