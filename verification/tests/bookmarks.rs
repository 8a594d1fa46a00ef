use dusk::config::bookmarks::BookmarkStore;

#[test]
fn test_add_duplicate() {
    let mut store = BookmarkStore::default();
    assert!(store.add("/tmp/a".into(), "a".into()));
    assert!(!store.add("/tmp/a".into(), "a".into())); // duplicate
    assert_eq!(store.len(), 1);
}

#[test]
fn test_remove() {
    let mut store = BookmarkStore::default();
    store.add("/tmp/a".into(), "a".into());
    store.add("/tmp/b".into(), "b".into());
    store.remove(0);
    assert_eq!(store.len(), 1);
    assert_eq!(store.bookmarks[0].label, "b");
}

#[test]
fn add_treats_equal_paths_as_duplicates() {
    let mut store = BookmarkStore::default();
    assert!(store.is_empty());
    assert!(store.add("/tmp/a".into(), "a".into()));
    // `Path` compares by components, so a trailing slash names the same path.
    assert!(!store.add("/tmp/a/".into(), "again".into()));
    assert!(store.add("/tmp/ab".into(), "ab".into()));
    assert_eq!(store.len(), 2);
    store.remove(7);
    assert_eq!(store.len(), 2);
}
