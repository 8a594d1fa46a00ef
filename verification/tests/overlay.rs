use dusk::config::bookmarks::Bookmark;
use dusk::tui::filter::FilterCriteria;
use dusk::tui::input::{KeyCode, KeyPress};
use dusk::tui::overlay::{
    handle_overlay_key, rank_scored, search_entries, Overlay, OverlayAction, SearchEntry,
};
use dusk::tui::widgets::text_input::TextInputState;

fn key(code: KeyCode) -> KeyPress {
    KeyPress::new(code, false)
}

fn entry(name: &str, index: usize) -> SearchEntry {
    SearchEntry {
        name: name.to_string(),
        path_indices: vec![index],
        name_path: vec![name.to_string()],
    }
}

#[test]
fn delete_confirm_keys() {
    let mut o = Overlay::DeleteConfirm {
        node_name: "a".into(),
        path_indices: vec![0, 2],
        fs_path: "/tmp/a".into(),
        is_dir: true,
        size: 4,
    };
    match handle_overlay_key(&mut o, key(KeyCode::Char('Y'))) {
        OverlayAction::ConfirmDelete { path_indices, fs_path, is_dir } => {
            assert_eq!(path_indices, vec![0, 2]);
            assert_eq!(fs_path, "/tmp/a");
            assert!(is_dir);
        }
        _ => panic!("expected confirmation"),
    }
    assert!(matches!(handle_overlay_key(&mut o, key(KeyCode::Esc)), OverlayAction::Close));
    assert!(matches!(handle_overlay_key(&mut o, key(KeyCode::Char('x'))), OverlayAction::Consumed));
}

#[test]
fn filter_menu_keys() {
    let mut o = Overlay::FilterMenu;
    match handle_overlay_key(&mut o, key(KeyCode::Char('3'))) {
        OverlayAction::ApplyFilter(FilterCriteria::SizeRange { min, max }) => {
            assert_eq!(min, Some(100 * 1024 * 1024));
            assert_eq!(max, None);
        }
        _ => panic!("expected a size filter"),
    }
    match handle_overlay_key(&mut o, key(KeyCode::Char('w'))) {
        OverlayAction::ApplyFilter(FilterCriteria::ModifiedWithin(days)) => assert_eq!(days, 7),
        _ => panic!("expected a date filter"),
    }
    assert!(matches!(handle_overlay_key(&mut o, key(KeyCode::Char('e'))), OverlayAction::SwitchToExtFilter));
    assert!(matches!(handle_overlay_key(&mut o, key(KeyCode::Char('c'))), OverlayAction::ClearFilter));
    assert!(matches!(handle_overlay_key(&mut o, key(KeyCode::Char('q'))), OverlayAction::Close));
}

#[test]
fn extension_input_keys() {
    let mut o = Overlay::FilterExtInput { input: TextInputState::new() };
    assert!(matches!(handle_overlay_key(&mut o, key(KeyCode::Enter)), OverlayAction::ClearFilter));
    handle_overlay_key(&mut o, key(KeyCode::Char('r')));
    handle_overlay_key(&mut o, key(KeyCode::Char('x')));
    handle_overlay_key(&mut o, key(KeyCode::Backspace));
    handle_overlay_key(&mut o, key(KeyCode::Char('s')));
    match handle_overlay_key(&mut o, key(KeyCode::Enter)) {
        OverlayAction::ApplyFilter(FilterCriteria::Extension(ext)) => assert_eq!(ext, "rs"),
        _ => panic!("expected an extension filter"),
    }
}

#[test]
fn bookmark_list_keys() {
    let mut o = Overlay::BookmarkList {
        bookmarks: vec![
            Bookmark { path: "/a".into(), label: "a".into() },
            Bookmark { path: "/b".into(), label: "b".into() },
        ],
        selected: 0,
        list_selected: Some(0),
    };
    handle_overlay_key(&mut o, key(KeyCode::Down));
    handle_overlay_key(&mut o, key(KeyCode::Char('j')));
    match &o {
        Overlay::BookmarkList { selected, list_selected, .. } => {
            assert_eq!(*selected, 1);
            assert_eq!(*list_selected, Some(1));
        }
        _ => panic!("still a bookmark list"),
    }
    match handle_overlay_key(&mut o, key(KeyCode::Enter)) {
        OverlayAction::BookmarkJump(p) => assert_eq!(p, "/b"),
        _ => panic!("expected a jump"),
    }
    assert!(matches!(handle_overlay_key(&mut o, key(KeyCode::Char('d'))), OverlayAction::BookmarkRemove(1)));
    handle_overlay_key(&mut o, key(KeyCode::Up));
    handle_overlay_key(&mut o, key(KeyCode::Up));
    match &o {
        Overlay::BookmarkList { selected, .. } => assert_eq!(*selected, 0),
        _ => panic!("still a bookmark list"),
    }
}

#[test]
fn search_overlay_typing_and_results() {
    let mut o = Overlay::Search {
        input: TextInputState::new(),
        all_entries: vec![entry("main.rs", 0)],
        results: Vec::new(),
        selected: 0,
        list_selected: None,
    };
    assert!(matches!(handle_overlay_key(&mut o, key(KeyCode::Enter)), OverlayAction::Close));
    handle_overlay_key(&mut o, key(KeyCode::Char('j')));
    match &o {
        Overlay::Search { input, .. } => assert_eq!(input.query, "j"),
        _ => panic!("still a search"),
    }
    assert!(matches!(handle_overlay_key(&mut o, key(KeyCode::Enter)), OverlayAction::SearchUpdate));
    if let Overlay::Search { results, .. } = &mut o {
        *results = search_entries(&vec![entry("main.rs", 0)], "mai");
    }
    match handle_overlay_key(&mut o, key(KeyCode::Enter)) {
        OverlayAction::SearchJump { path_indices, name_path } => {
            assert_eq!(path_indices, vec![0]);
            assert_eq!(name_path, vec!["main.rs".to_string()]);
        }
        _ => panic!("expected a jump"),
    }
    // Typing while results are shown clears them.
    handle_overlay_key(&mut o, key(KeyCode::Char('z')));
    match &o {
        Overlay::Search { results, input, .. } => {
            assert!(results.is_empty());
            assert_eq!(input.query, "j");
        }
        _ => panic!("still a search"),
    }
}

#[test]
fn flash_closes_on_any_key() {
    let mut o = Overlay::Flash { message: "hi".into() };
    assert!(matches!(handle_overlay_key(&mut o, key(KeyCode::Other)), OverlayAction::Close));
}

#[test]
fn search_ranks_by_score_and_needs_two_bytes() {
    let entries = vec![entry("xmain_rs", 0), entry("main.rs", 1), entry("other", 2)];
    assert!(search_entries(&entries, "m").is_empty());
    assert!(search_entries(&entries, "").is_empty());
    let results = search_entries(&entries, "main");
    let names: Vec<&str> = results.iter().map(|r| r.name.as_str()).collect();
    assert!(names.contains(&"main.rs"));
    assert!(!names.contains(&"other"));
    for w in results.windows(2) {
        assert!(w[0].score >= w[1].score);
    }
    // A single two-byte character is long enough.
    let accented = vec![entry("é", 0)];
    assert_eq!(search_entries(&accented, "é").len(), 1);
}

#[test]
fn rank_scored_keeps_order_of_equal_scores_and_caps_results() {
    let entries: Vec<SearchEntry> = (0..25).map(|i| entry(&format!("e{i}"), i)).collect();
    let mut scores: Vec<Option<i64>> = (0..25).map(|i| Some((i % 3) as i64)).collect();
    scores[0] = None;
    let results = rank_scored(&entries, &scores);
    assert_eq!(results.len(), 20);
    assert_eq!(results[0].name, "e2");
    assert_eq!(results[1].name, "e5");
    assert!(results.iter().all(|r| r.name != "e0"));
    for w in results.windows(2) {
        assert!(w[0].score >= w[1].score);
        if w[0].score == w[1].score {
            assert!(w[0].path_indices[0] < w[1].path_indices[0]);
        }
    }
}
