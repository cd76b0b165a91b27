use git_navigator::change_state::{ChangeState, ListSelection};
use git_navigator::model::{
    ChangeMode, ChangedFile, DiffHunk, DiffRow, DiffRowKind, DiffView, FileStatus, HunkId, HunkKind,
};

#[test]
fn installing_and_clearing_files_rebuilds_lookup_and_resets_selection() {
    let mut changes = ChangeState::new(ChangeMode::Uncommitted, DiffView::Hunks);
    let old_path = "old.rs".to_string();
    let new_path = "src/new.rs".to_string();

    changes.install_files(vec![ChangedFile::empty(old_path.clone(), FileStatus::Modified)]);
    assert_eq!(changes.file_index(&old_path), Some(0));

    changes.install_files(vec![ChangedFile::empty(new_path.clone(), FileStatus::Modified)]);
    assert_eq!(changes.file_index(&old_path), None);
    assert_eq!(changes.file_index(&new_path), Some(0));
    assert_eq!(changes.tree_index(&new_path), Some(1));

    changes.select_file_path(Some(new_path));
    changes.file_list.selected = Some(1);
    changes.diff_list.selected = Some(2);
    changes.clear_files();

    assert!(changes.files.is_empty());
    assert!(changes.file_tree.is_empty());
    assert_eq!(changes.file_index("old.rs"), None);
    assert_eq!(changes.tree_index("src/new.rs"), None);
    assert!(changes.selected_file().is_none());
    assert_eq!(changes.file_list.selected, None);
    assert_eq!(changes.diff_list.selected, None);
}

#[test]
fn selecting_a_path_selects_its_tree_row() {
    let mut changes = ChangeState::new(ChangeMode::Branch, DiffView::FullFile);
    let mut main = ChangedFile::empty("src/main.rs".into(), FileStatus::Modified);
    main.hunks.push(DiffHunk {
        id: HunkId::synthetic("h"),
        header: "@@".into(),
        kind: HunkKind::Combined,
        rows: vec![],
        collapsed: false,
    });
    changes.install_files(vec![ChangedFile::empty("README.md".into(), FileStatus::Added), main]);
    assert_eq!(
        changes.file_tree.iter().map(|row| row.path.as_str()).collect::<Vec<_>>(),
        vec!["README.md", "src", "src/main.rs"]
    );
    changes.select_file_path(Some("src/main.rs".into()));
    assert_eq!(changes.file_list, ListSelection { selected: Some(2), offset: 0 });
    assert_eq!(changes.selected_file_index(), Some(1));
    assert_eq!(changes.selected_file().map(|file| file.path.as_str()), Some("src/main.rs"));
    assert_eq!(changes.file_for_tree_row(1).map(|file| file.path.as_str()), None);
    assert_eq!(changes.first_diff_row(Some(2)), Some(0));
    assert_eq!(changes.first_diff_row(Some(0)), None);
    assert_eq!(changes.first_diff_row(Some(1)), None);
    assert_eq!(changes.visible_file_rows("main"), vec![1, 2]);
    changes.select_file_path(Some("missing.rs".into()));
    assert_eq!(changes.file_list.selected, None);
}

#[test]
fn loading_prefers_the_remembered_file_when_it_is_still_changed() {
    let mut changes = ChangeState::new(ChangeMode::Uncommitted, DiffView::Hunks);
    changes.install_files(vec![
        ChangedFile::empty("src/lib.rs".into(), FileStatus::Modified),
        ChangedFile::empty("README.md".into(), FileStatus::Modified),
    ]);
    assert_eq!(changes.file_to_select(Some("src/lib.rs")), Some("src/lib.rs".to_string()));
    assert_eq!(changes.file_to_select(Some("gone.rs")), Some("README.md".to_string()));
    assert_eq!(changes.file_to_select(None), Some("README.md".to_string()));
    changes.clear_files();
    assert_eq!(changes.file_to_select(Some("src/lib.rs")), None);
}

fn diff_row(old: usize, old_text: &str, new_text: &str, kind: DiffRowKind) -> DiffRow {
    DiffRow {
        old_number: Some(old),
        new_number: Some(old),
        old_text: Some(old_text.into()),
        new_text: Some(new_text.into()),
        kind,
    }
}

fn searchable_changes() -> ChangeState {
    let mut changes = ChangeState::new(ChangeMode::Uncommitted, DiffView::Hunks);
    let mut file = ChangedFile::empty("src/main.rs".into(), FileStatus::Modified);
    file.additions = 1;
    file.hunks.push(DiffHunk {
        id: HunkId::synthetic("test-hunk-2"),
        header: "@@".into(),
        kind: HunkKind::Unstaged,
        collapsed: false,
        rows: vec![
            diff_row(1, "alpha", "alpha", DiffRowKind::Context),
            diff_row(2, "beta", "target one", DiffRowKind::Modified),
            diff_row(3, "target two", "gamma", DiffRowKind::Modified),
        ],
    });
    changes.install_files(vec![file]);
    changes.select_file_path(Some("src/main.rs".into()));
    changes.file_list.select(Some(0));
    changes.diff_list.select(Some(0));
    changes
}

#[test]
fn diff_search_moves_between_matches_and_wraps() {
    let mut changes = searchable_changes();
    assert!(!changes.search_diff_query("target", 0));
    assert_eq!(changes.diff_list.selected, Some(2));
    assert_eq!(changes.diff_search_match_position("target"), Some((1, 2)));
    assert!(!changes.search_diff_query("target", 1));
    assert_eq!(changes.diff_list.selected, Some(3));
    assert_eq!(changes.diff_search_match_position("target"), Some((2, 2)));
    assert!(!changes.search_diff_query("target", 1));
    assert_eq!(changes.diff_list.selected, Some(2));
    assert!(!changes.search_diff_query("target", -1));
    assert_eq!(changes.diff_list.selected, Some(3));
    assert!(!changes.search_diff_query("TARGET", -1));
    assert_eq!(changes.diff_list.selected, Some(2));
}

#[test]
fn diff_search_without_a_match_reports_it_and_keeps_the_selection() {
    let mut changes = searchable_changes();
    changes.diff_list.select(Some(1));
    assert!(changes.search_diff_query("missing", 1));
    assert_eq!(changes.diff_list.selected, Some(1));
    assert_eq!(changes.diff_search_match_position("missing"), Some((0, 0)));
    assert!(!changes.search_diff_query("", 1));
    assert_eq!(changes.diff_list.selected, Some(1));
    assert_eq!(changes.diff_search_match_position(""), None);
    assert_eq!(changes.diff_search_match_position("alpha"), Some((1, 1)));
}

#[test]
fn diff_moves_stop_at_the_first_and_last_row() {
    let mut changes = searchable_changes();
    assert_eq!(changes.diff_row_count(), 4);
    changes.move_diff_by(3);
    assert_eq!(changes.diff_list.selected, Some(3));
    changes.move_diff_by(3);
    assert_eq!(changes.diff_list.selected, Some(3));
    changes.move_diff_by(-1);
    assert_eq!(changes.diff_list.selected, Some(2));
    changes.move_diff_by(-10);
    assert_eq!(changes.diff_list.selected, Some(0));
    changes.select_diff_row(3);
    assert_eq!(changes.diff_list.selected, Some(3));
    changes.diff_list.offset = 2;
    changes.select_diff_row(4);
    assert_eq!(changes.diff_list, ListSelection { selected: None, offset: 0 });
    changes.clear_files();
    assert_eq!(changes.diff_row_count(), 0);
    changes.move_diff_by(1);
    assert_eq!(changes.diff_list.selected, None);
}

#[test]
fn toggling_a_hunk_selects_its_header_and_toggling_again_unfolds_it() {
    let mut changes = searchable_changes();
    changes.diff_list.select(Some(2));
    assert_eq!(changes.selected_hunk_index(), Some(0));
    changes.toggle_selected_hunk();
    assert!(changes.files[0].hunks[0].collapsed);
    assert_eq!(changes.diff_list.selected, Some(0));
    assert_eq!(changes.diff_row_count(), 1);
    changes.toggle_selected_hunk();
    assert!(!changes.files[0].hunks[0].collapsed);
    assert_eq!(changes.diff_list.selected, Some(0));
    assert_eq!(changes.diff_row_count(), 4);
    changes.diff_list.select(Some(9));
    assert_eq!(changes.selected_hunk_index(), None);
    changes.toggle_selected_hunk();
    assert!(!changes.files[0].hunks[0].collapsed);
    assert_eq!(changes.diff_list.selected, Some(9));
}

#[test]
fn following_a_change_selects_the_last_changed_line_and_scrolls_to_it() {
    let mut changes = searchable_changes();
    changes.select_latest_diff_row();
    assert_eq!(changes.diff_list, ListSelection { selected: Some(3), offset: 3 });
    changes.select_file_path(None);
    changes.select_latest_diff_row();
    assert_eq!(changes.diff_list, ListSelection { selected: None, offset: 0 });
}

#[test]
fn a_saved_diff_position_comes_back_after_a_reload() {
    let mut changes = searchable_changes();
    changes.diff_list = ListSelection { selected: Some(2), offset: 1 };
    let saved = changes.diff_position().expect("a row is selected");
    assert_eq!(saved.row_in_hunk, 2);
    assert_eq!(saved.scroll_offset, 1);

    let reloaded = changes.files.clone();
    changes.install_files(reloaded);
    changes.diff_list.select(None);
    changes.restore_diff_position(Some(&saved));
    assert_eq!(changes.diff_list, ListSelection { selected: Some(2), offset: 1 });

    changes.diff_list.select(Some(0));
    changes.files[0].hunks[0].collapsed = true;
    let folded = changes.diff_position().expect("the header is kept");
    assert_eq!(folded.collapsed_hunks.len(), 1);
    changes.files[0].hunks[0].collapsed = false;
    changes.restore_diff_position(Some(&folded));
    assert!(changes.files[0].hunks[0].collapsed);
    assert_eq!(changes.diff_list, ListSelection { selected: Some(0), offset: 0 });

    changes.select_file_path(Some("src/main.rs".into()));
    changes.restore_diff_position(None);
    assert_eq!(changes.diff_list, ListSelection { selected: Some(0), offset: 0 });
    changes.select_file_path(None);
    changes.restore_diff_position(Some(&saved));
    assert_eq!(changes.diff_list, ListSelection { selected: None, offset: 0 });
}

#[test]
fn file_moves_and_clicks_select_files_and_their_first_diff_row() {
    let mut changes = ChangeState::new(ChangeMode::Uncommitted, DiffView::Hunks);
    let mut lib = ChangedFile::empty("src/lib.rs".into(), FileStatus::Modified);
    lib.hunks.push(DiffHunk {
        id: HunkId::synthetic("lib"),
        header: "@@".into(),
        kind: HunkKind::Unstaged,
        collapsed: false,
        rows: vec![diff_row(1, "a", "b", DiffRowKind::Modified)],
    });
    changes.install_files(vec![
        ChangedFile::empty("README.md".into(), FileStatus::Modified),
        lib,
    ]);
    let visible = changes.visible_file_rows("");
    assert_eq!(visible, vec![0, 1, 2]);
    changes.select_file_path(Some("README.md".into()));
    assert!(changes.move_file(&visible, 1));
    assert_eq!(changes.selected_file_path.as_deref(), Some("src/lib.rs"));
    assert_eq!(changes.file_list.selected, Some(2));
    assert_eq!(changes.diff_list.selected, Some(0));
    assert!(!changes.move_file(&visible, 1));

    assert!(!changes.select_file_row(&visible, 1));
    assert!(!changes.select_file_row(&visible, 2));
    assert!(changes.select_file_row(&visible, 0));
    assert_eq!(changes.selected_file_path.as_deref(), Some("README.md"));
    assert_eq!(changes.file_list.selected, Some(0));
    assert_eq!(changes.diff_list, ListSelection { selected: None, offset: 0 });
    assert!(!changes.select_file_row(&visible, 7));
}

#[test]
fn selecting_nothing_scrolls_a_list_to_the_top() {
    let mut list = ListSelection { selected: Some(4), offset: 3 };
    list.select(Some(5));
    assert_eq!(list, ListSelection { selected: Some(5), offset: 3 });
    list.select(None);
    assert_eq!(list, ListSelection { selected: None, offset: 0 });
}
