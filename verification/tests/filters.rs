use dusk::model::node::{DiskNode, NodeType};
use dusk::model::time::now_nanos;
use dusk::tui::filter::{date_preset, size_preset, FilterCriteria};

#[test]
fn test_extension_filter() {
    let filter = FilterCriteria::Extension("rs".into());
    let rs_file = DiskNode::new("main.rs".into(), 100, NodeType::File, 1);
    let txt_file = DiskNode::new("readme.txt".into(), 100, NodeType::File, 1);
    let dir = DiskNode::new("src".into(), 1000, NodeType::Dir, 1);

    assert!(filter.matches(&rs_file));
    assert!(!filter.matches(&txt_file));
    assert!(filter.matches(&dir)); // dirs always match
}

#[test]
fn test_size_filter() {
    let filter = FilterCriteria::SizeRange {
        min: Some(50),
        max: Some(200),
    };
    let small = DiskNode::new("small".into(), 10, NodeType::File, 1);
    let medium = DiskNode::new("med".into(), 100, NodeType::File, 1);
    let large = DiskNode::new("large".into(), 500, NodeType::File, 1);

    assert!(!filter.matches(&small));
    assert!(filter.matches(&medium));
    assert!(!filter.matches(&large));
}

#[test]
fn test_modified_filter() {
    let filter = FilterCriteria::ModifiedWithin(7);
    let mut recent = DiskNode::new("recent".into(), 100, NodeType::File, 1);
    recent.modified = Some(now_nanos());

    let mut old = DiskNode::new("old".into(), 100, NodeType::File, 1);
    old.modified = Some(0);

    assert!(filter.matches(&recent));
    assert!(!filter.matches(&old));
}

#[test]
fn extension_filter_ignores_case_and_needs_a_dot() {
    let filter = FilterCriteria::Extension("RS".into());
    let upper = DiskNode::new("LIB.Rs".into(), 1, NodeType::File, 1);
    let no_ext = DiskNode::new("rs".into(), 1, NodeType::File, 1);
    let double = DiskNode::new("archive.tar.rs".into(), 1, NodeType::File, 1);
    assert!(filter.matches(&upper));
    assert!(!filter.matches(&no_ext));
    assert!(filter.matches(&double));
}

#[test]
fn modified_filter_at_fixed_clock() {
    let day: i128 = 86_400_000_000_000;
    let now: i128 = 100 * day;
    let filter = FilterCriteria::ModifiedWithin(7);
    let mut edge = DiskNode::new("edge".into(), 1, NodeType::File, 1);
    edge.modified = Some(now - 7 * day);
    let mut before = DiskNode::new("before".into(), 1, NodeType::File, 1);
    before.modified = Some(now - 7 * day - 1);
    let unknown = DiskNode::new("unknown".into(), 1, NodeType::File, 1);
    assert!(filter.matches_at(&edge, now));
    assert!(!filter.matches_at(&before, now));
    assert!(!filter.matches_at(&unknown, now));
}

#[test]
fn filter_labels() {
    assert_eq!(FilterCriteria::Extension("rs".into()).label(), "*.rs");
    assert_eq!(
        FilterCriteria::SizeRange { min: Some(1048576), max: None }.label(),
        ">1 MiB"
    );
    assert_eq!(
        FilterCriteria::SizeRange { min: None, max: Some(1024) }.label(),
        "<1 KiB"
    );
    assert_eq!(
        FilterCriteria::SizeRange { min: Some(1024), max: Some(2048) }.label(),
        "1 KiB-2 KiB"
    );
    assert_eq!(
        FilterCriteria::SizeRange { min: None, max: None }.label(),
        "all sizes"
    );
    assert_eq!(FilterCriteria::ModifiedWithin(30).label(), "last 30d");
}

#[test]
fn filter_presets() {
    assert_eq!(size_preset(0), (1024 * 1024, "> 1 MiB"));
    assert_eq!(size_preset(3), (1024 * 1024 * 1024, "> 1 GiB"));
    assert_eq!(date_preset(0), (1, "Last 24h"));
    assert_eq!(date_preset(3), (365, "Last year"));
}
