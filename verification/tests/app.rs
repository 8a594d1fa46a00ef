use dusk::config::bookmarks::BookmarkStore;
use dusk::model::metadata::FileMetadata;
use dusk::model::node::{DiskNode, NodeType};
use dusk::model::order::{SortConfig, SortField};
use dusk::scanner::walker::{ScanUpdate, ScanWarnings};
use dusk::tui::app::{App, AppState, BrowsingState, KeyOutcome};
use dusk::tui::input::{KeyCode, KeyPress};
use dusk::tui::overlay::Overlay;
use dusk::tui::ViewMode;

fn sample_tree() -> DiskNode {
    let mut root = DiskNode::new("root".into(), 11, NodeType::Dir, 0);
    let mut src = DiskNode::new("src".into(), 10, NodeType::Dir, 1);
    src.children
        .push(DiskNode::new("main.rs".into(), 10, NodeType::File, 2));
    let readme = DiskNode::new("README.md".into(), 1, NodeType::File, 1);
    root.children.push(src);
    root.children.push(readme);
    root
}

fn browsing_app(root_path: &str) -> App {
    App {
        state: AppState::Browsing(BrowsingState::from_root(sample_tree())),
        view_mode: ViewMode::Tree,
        overlay: None,
        root_path: root_path.to_string(),
        use_trash: true,
        bookmarks: BookmarkStore::default(),
        scan_warnings: ScanWarnings::default(),
        startup_notices: Vec::new(),
    }
}

fn browsing(app: &App) -> &BrowsingState {
    match &app.state {
        AppState::Browsing(b) => b,
        _ => panic!("expected browsing state"),
    }
}

fn press(app: &mut App, code: KeyCode) -> KeyOutcome {
    app.handle_key(KeyPress::new(code, false))
}

#[test]
fn test_jump_to_root_bookmark_resets_navigation() {
    let root_path = "/tmp/project";
    let mut app = browsing_app(root_path);

    if let AppState::Browsing(browsing) = &mut app.state {
        browsing.tree_state.cursor = browsing.flat_rows.len().saturating_sub(1);
        browsing.tree_state.list_selected =
            (!browsing.flat_rows.is_empty()).then_some(browsing.tree_state.cursor);
        browsing.nav.view_dir_name_path = vec!["src".into()];
        browsing.nav.selected_name = "main.rs".into();
    }

    app.jump_to_bookmark(root_path);

    if let AppState::Browsing(browsing) = &app.state {
        assert_eq!(browsing.tree_state.cursor, 0);
        assert_eq!(
            browsing.tree_state.list_selected,
            (!browsing.flat_rows.is_empty()).then_some(0)
        );
        assert!(browsing.nav.view_dir_name_path.is_empty());
        assert_eq!(browsing.nav.selected_name, "src");
    } else {
        panic!("expected browsing state");
    }
}

#[test]
fn test_flush_notices_shows_flash_overlay() {
    let mut app = browsing_app("/tmp/project");
    app.startup_notices = vec!["first".into(), "second".into()];

    app.flush_notices();

    match app.overlay {
        Some(Overlay::Flash { message }) => assert_eq!(message, "first | second"),
        _ => panic!("expected flash overlay"),
    }
    assert!(app.startup_notices.is_empty());
}

#[test]
fn jump_to_bookmark_below_root_expands_and_selects() {
    let mut app = browsing_app("/tmp/project");
    app.jump_to_bookmark("/tmp/project/src/main.rs");
    let b = browsing(&app);
    assert!(b.tree_state.expanded.contains(&["src".to_string()]));
    assert_eq!(b.flat_rows.len(), 3);
    assert_eq!(b.tree_state.cursor, 1);
    assert_eq!(b.nav.view_dir_name_path, vec!["src".to_string()]);
    assert_eq!(b.nav.selected_name, "main.rs");
    assert_eq!(b.bar_state.selected, Some(0));
}

#[test]
fn jump_to_bookmark_outside_scan_flashes() {
    let mut app = browsing_app("/tmp/project");
    app.jump_to_bookmark("/elsewhere");
    match &app.overlay {
        Some(Overlay::Flash { message }) => {
            assert_eq!(message, "Bookmark outside current scan — rescan needed")
        }
        _ => panic!("expected flash overlay"),
    }
}

#[test]
fn new_app_reports_bookmark_errors() {
    let app = App::new("/tmp".into(), false, Err("bad toml".into()));
    assert_eq!(app.startup_notices, vec!["Bookmarks unavailable: bad toml".to_string()]);
    assert!(matches!(app.state, AppState::Scanning { files_found: 0, bytes_found: 0, spinner_tick: 0 }));
    assert_eq!(app.view_mode, ViewMode::Tree);
}

#[test]
fn scan_updates_drive_the_state() {
    let mut app = App::new("/tmp".into(), false, Ok(BookmarkStore::default()));
    app.scan_update(ScanUpdate::Progress { files_found: 3, bytes_found: 9 });
    app.tick();
    assert!(matches!(app.state, AppState::Scanning { files_found: 3, bytes_found: 9, spinner_tick: 1 }));
    app.scan_update(ScanUpdate::Complete {
        root: sample_tree(),
        warnings: ScanWarnings { skipped_entries: 2 },
    });
    assert_eq!(browsing(&app).flat_rows.len(), 2);
    match &app.overlay {
        Some(Overlay::Flash { message }) => assert_eq!(message, "Skipped 2 unreadable entries"),
        _ => panic!("expected flash overlay"),
    }
    app.scan_disconnected();
    assert!(matches!(app.state, AppState::Browsing(_)));

    let mut failed = App::new("/tmp".into(), false, Ok(BookmarkStore::default()));
    failed.scan_disconnected();
    match &failed.state {
        AppState::Error(m) => assert_eq!(m, "Scanner terminated unexpectedly"),
        _ => panic!("expected an error"),
    }
    failed.scan_update(ScanUpdate::Error("boom".into()));
    assert!(matches!(&failed.state, AppState::Error(m) if m == "boom"));
}

#[test]
fn quit_keys_and_view_switches() {
    let mut app = browsing_app("/tmp/project");
    assert!(matches!(press(&mut app, KeyCode::Char('2')), KeyOutcome::Continue));
    assert_eq!(app.view_mode, ViewMode::Treemap);
    press(&mut app, KeyCode::Char('3'));
    assert_eq!(app.view_mode, ViewMode::Bar);
    press(&mut app, KeyCode::Char('1'));
    assert_eq!(app.view_mode, ViewMode::Tree);
    assert!(matches!(press(&mut app, KeyCode::Char('q')), KeyOutcome::Quit));
    assert!(matches!(press(&mut app, KeyCode::Esc), KeyOutcome::Quit));
    assert_eq!(ViewMode::Treemap.label(), "Map");
    assert_eq!(ViewMode::Bar.key(), '3');
}

#[test]
fn tree_keys_move_and_expand() {
    let mut app = browsing_app("/tmp/project");
    press(&mut app, KeyCode::Enter);
    assert_eq!(browsing(&app).flat_rows.len(), 3);
    assert_eq!(browsing(&app).tree_state.cursor, 1);
    press(&mut app, KeyCode::Left);
    assert_eq!(browsing(&app).tree_state.cursor, 0);
    press(&mut app, KeyCode::Char(' '));
    assert_eq!(browsing(&app).flat_rows.len(), 2);
    press(&mut app, KeyCode::Down);
    assert_eq!(browsing(&app).tree_state.cursor, 1);
}

#[test]
fn bar_keys_move_and_sync() {
    let mut app = browsing_app("/tmp/project");
    press(&mut app, KeyCode::Char('3'));
    press(&mut app, KeyCode::Down);
    let b = browsing(&app);
    assert_eq!(b.nav.selected_name, "README.md");
    assert_eq!(b.bar_state.selected, Some(1));
}

#[test]
fn info_and_delete_requests() {
    let mut app = browsing_app("/tmp/project");
    match press(&mut app, KeyCode::Char('i')) {
        KeyOutcome::LoadInfo { fs_path, node_name } => {
            assert_eq!(fs_path, "/tmp/project/src");
            assert_eq!(node_name, "src");
        }
        _ => panic!("expected an info request"),
    }
    app.info_loaded("src", Err("gone".into()));
    match &app.overlay {
        Some(Overlay::Flash { message }) => assert_eq!(message, "Cannot read info: gone"),
        _ => panic!("expected flash overlay"),
    }
    press(&mut app, KeyCode::Other);
    assert!(app.overlay.is_none());
    let meta = FileMetadata {
        size: 1,
        permissions: "drwxr-xr-x".into(),
        uid: 0,
        gid: 0,
        modified: None,
        created: None,
        inode: 1,
        hard_links: 2,
        mime_type: "inode/directory".into(),
    };
    app.info_loaded("src", Ok(meta));
    assert!(matches!(&app.overlay, Some(Overlay::FileInfo { lines }) if lines[0] == "  Name: src"));
    press(&mut app, KeyCode::Esc);

    press(&mut app, KeyCode::Char('d'));
    assert!(matches!(&app.overlay, Some(Overlay::DeleteConfirm { node_name, .. }) if node_name == "src"));
    match press(&mut app, KeyCode::Char('y')) {
        KeyOutcome::Delete { path_indices, fs_path, is_dir, use_trash } => {
            assert_eq!(path_indices, vec![0]);
            assert_eq!(fs_path, "/tmp/project/src");
            assert!(is_dir);
            assert!(use_trash);
            app.delete_finished(&path_indices, Ok(()));
        }
        _ => panic!("expected a delete request"),
    }
    let b = browsing(&app);
    assert_eq!(b.root.children.len(), 1);
    assert_eq!(b.root.size, 1);
    assert_eq!(b.flat_rows.len(), 1);
    assert_eq!(b.flat_rows[0].name, "README.md");
    app.delete_finished(&[0], Err("denied".into()));
    assert!(matches!(&app.overlay, Some(Overlay::Flash { message }) if message == "Delete failed: denied"));
}

#[test]
fn bookmark_keys_add_and_list() {
    let mut app = browsing_app("/tmp/project");
    match press(&mut app, KeyCode::Char('b')) {
        KeyOutcome::SaveBookmarks { added } => assert!(added),
        _ => panic!("expected a save request"),
    }
    assert_eq!(app.bookmarks.bookmarks[0].path, "/tmp/project/src");
    assert_eq!(app.bookmarks.bookmarks[0].label, "src");
    app.bookmarks_saved(true, Ok(()));
    assert!(matches!(&app.overlay, Some(Overlay::Flash { message }) if message == "Bookmarked!"));
    press(&mut app, KeyCode::Other);
    assert!(matches!(press(&mut app, KeyCode::Char('b')), KeyOutcome::Continue));
    assert!(matches!(&app.overlay, Some(Overlay::Flash { message }) if message == "Already bookmarked"));
    press(&mut app, KeyCode::Other);
    app.handle_key(KeyPress::new(KeyCode::Char('b'), true));
    assert!(matches!(&app.overlay, Some(Overlay::BookmarkList { bookmarks, list_selected: Some(0), .. }) if bookmarks.len() == 1));
    match press(&mut app, KeyCode::Char('d')) {
        KeyOutcome::SaveBookmarks { added } => assert!(!added),
        _ => panic!("expected a save request"),
    }
    assert!(app.bookmarks.is_empty());
    app.bookmarks_saved(false, Ok(()));
    assert!(app.overlay.is_none());
}

#[test]
fn search_and_filter_through_keys() {
    let mut app = browsing_app("/tmp/project");
    press(&mut app, KeyCode::Char('/'));
    press(&mut app, KeyCode::Char('m'));
    press(&mut app, KeyCode::Char('a'));
    press(&mut app, KeyCode::Char('i'));
    press(&mut app, KeyCode::Enter);
    match &app.overlay {
        Some(Overlay::Search { results, list_selected, .. }) => {
            assert_eq!(results[0].name, "main.rs");
            assert_eq!(*list_selected, Some(0));
        }
        _ => panic!("expected search overlay"),
    }
    press(&mut app, KeyCode::Enter);
    assert!(app.overlay.is_none());
    let b = browsing(&app);
    assert_eq!(b.tree_state.cursor, 1);
    assert_eq!(b.nav.selected_name, "main.rs");

    press(&mut app, KeyCode::Char('f'));
    assert!(matches!(app.overlay, Some(Overlay::FilterMenu)));
    press(&mut app, KeyCode::Char('e'));
    press(&mut app, KeyCode::Char('m'));
    press(&mut app, KeyCode::Char('d'));
    press(&mut app, KeyCode::Enter);
    let b = browsing(&app);
    let names: Vec<&str> = b.flat_rows.iter().map(|r| r.name.as_str()).collect();
    assert_eq!(names, vec!["README.md"]);
    assert_eq!(b.tree_state.cursor, 0);
}

#[test]
fn sort_keys_cycle_field_and_toggle_direction() {
    let mut app = browsing_app("/tmp/project");
    assert_eq!(browsing(&app).sort_config, SortConfig::default());

    assert!(matches!(press(&mut app, KeyCode::Char('s')), KeyOutcome::Continue));
    let b = browsing(&app);
    assert_eq!(b.sort_config, SortConfig { field: SortField::Name, ascending: false });
    let names: Vec<String> = b.root.children.iter().map(|c| c.name.clone()).collect();
    assert_eq!(names, vec!["src", "README.md"]);
    assert_eq!(b.flat_rows[0].name, "src");

    assert!(matches!(
        app.handle_key(KeyPress::new(KeyCode::Char('s'), true)),
        KeyOutcome::Continue
    ));
    let b = browsing(&app);
    assert_eq!(b.sort_config, SortConfig { field: SortField::Name, ascending: true });
    let names: Vec<String> = b.root.children.iter().map(|c| c.name.clone()).collect();
    assert_eq!(names, vec!["README.md", "src"]);
    assert_eq!(b.flat_rows[0].name, "README.md");
    assert_eq!(b.flat_rows.len(), 2);

    for _ in 0..3 {
        press(&mut app, KeyCode::Char('s'));
    }
    assert_eq!(
        browsing(&app).sort_config,
        SortConfig { field: SortField::Size, ascending: true }
    );
}
