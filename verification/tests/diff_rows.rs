use git_navigator::diff_rows::{
    all_rows_fit, diff_position, diff_row_count, diff_rows_fit, hunk_at_row, latest_change_row,
    restore_collapsed, restore_scroll_offset, row_at, row_for_position, row_position, toggle_hunk_at,
    DiffPosition,
};
use git_navigator::model::{
    ChangedFile, DiffHunk, DiffRow, DiffRowKind, FileStatus, HunkId, HunkKind,
};

fn row(old: Option<usize>, new: Option<usize>, old_text: &str, new_text: &str, kind: DiffRowKind) -> DiffRow {
    DiffRow {
        old_number: old,
        new_number: new,
        old_text: Some(old_text.into()),
        new_text: Some(new_text.into()),
        kind,
    }
}

fn hunk(id: &str, header: &str, kind: HunkKind, rows: Vec<DiffRow>, collapsed: bool) -> DiffHunk {
    DiffHunk {
        id: HunkId::synthetic(id),
        header: header.into(),
        kind,
        rows,
        collapsed,
    }
}

fn two_hunk_file(first_id: &str, second_id: &str) -> ChangedFile {
    let mut file = ChangedFile::empty("src/main.rs".into(), FileStatus::Modified);
    file.hunks = vec![
        hunk(
            first_id,
            "@@ -1,2 +1,2 @@",
            HunkKind::Unstaged,
            vec![
                row(Some(1), Some(1), "one", "one", DiffRowKind::Context),
                row(Some(2), Some(2), "old", "new", DiffRowKind::Modified),
            ],
            true,
        ),
        hunk(
            second_id,
            "@@ -10 +10 @@",
            HunkKind::Unstaged,
            vec![row(Some(10), Some(10), "before", "after", DiffRowKind::Modified)],
            false,
        ),
    ];
    file
}

fn header_only_file(first: &str, second: &str) -> ChangedFile {
    let mut file = ChangedFile::empty("file".into(), FileStatus::Modified);
    file.hunks = vec![
        hunk(first, "one", HunkKind::Staged, vec![], false),
        hunk(second, "two", HunkKind::Unstaged, vec![], false),
    ];
    file
}

#[test]
fn app_maps_visible_rows_to_hunks() {
    let file = header_only_file("one", "two");
    assert_eq!(hunk_at_row(&file, 0), Some(0));
    assert_eq!(hunk_at_row(&file, 1), Some(1));
    assert_eq!(hunk_at_row(&file, 2), None);
}

#[test]
fn mod_maps_visible_rows_to_hunks() {
    let file = header_only_file("test-hunk-3", "test-hunk-4");
    assert_eq!(hunk_at_row(&file, 0), Some(0));
    assert_eq!(hunk_at_row(&file, 1), Some(1));
    assert_eq!(hunk_at_row(&file, 2), None);
}

#[test]
fn app_restores_diff_position_and_collapsed_hunks() {
    let mut file = two_hunk_file("@@ -1,2 +1,2 @@", "@@ -10 +10 @@");
    let position = DiffPosition {
        hunk_id: HunkId::synthetic("@@ -10 +10 @@"),
        row_in_hunk: 1,
        scroll_offset: 1,
        collapsed_hunks: vec![HunkId::synthetic("@@ -1,2 +1,2 @@")],
    };

    for hunk in &mut file.hunks {
        hunk.collapsed = position.collapsed_hunks.contains(&hunk.id);
    }
    assert_eq!(row_for_position(&file, &position), Some(2));
    assert!(file.hunks[0].collapsed);
    assert!(!file.hunks[1].collapsed);
}

#[test]
fn mod_restores_diff_position_and_collapsed_hunks() {
    let mut file = two_hunk_file("test-hunk-5", "test-hunk-6");
    let position = DiffPosition {
        hunk_id: HunkId::synthetic("test-hunk-6"),
        row_in_hunk: 1,
        scroll_offset: 1,
        collapsed_hunks: vec![HunkId::synthetic("test-hunk-5")],
    };

    for hunk in &mut file.hunks {
        hunk.collapsed = position.collapsed_hunks.contains(&hunk.id);
    }
    assert_eq!(row_for_position(&file, &position), Some(2));
    assert!(file.hunks[0].collapsed);
    assert!(!file.hunks[1].collapsed);
}

#[test]
fn collapsed_hunks_take_one_row() {
    let file = two_hunk_file("a", "b");
    assert!(diff_rows_fit(&file));
    assert_eq!(diff_row_count(&file), 3);
    assert_eq!(hunk_at_row(&file, 0), Some(0));
    assert_eq!(hunk_at_row(&file, 1), Some(1));
    assert_eq!(hunk_at_row(&file, 2), Some(1));
    assert_eq!(hunk_at_row(&file, 3), None);
    assert_eq!(row_position(&file, 2), Some((1, 1)));
    assert_eq!(row_position(&file, 3), None);
}

#[test]
fn header_rows_stand_for_the_first_line_of_their_hunk() {
    let file = two_hunk_file("a", "b");
    assert_eq!(row_at(&file, 0).and_then(|r| r.new_number), Some(1));
    assert_eq!(row_at(&file, 1).and_then(|r| r.new_number), Some(10));
    assert_eq!(row_at(&file, 2).and_then(|r| r.new_number), Some(10));
    assert!(row_at(&file, 3).is_none());
    let empty = header_only_file("x", "y");
    assert!(row_at(&empty, 0).is_none());
}

#[test]
fn saving_and_restoring_a_position_round_trips() {
    let mut file = two_hunk_file("a", "b");
    let saved = diff_position(&file, 2, 7).expect("row 2 exists");
    assert_eq!(saved.hunk_id, HunkId::synthetic("b"));
    assert_eq!(saved.row_in_hunk, 1);
    assert_eq!(saved.scroll_offset, 7);
    assert_eq!(saved.collapsed_hunks, vec![HunkId::synthetic("a")]);
    assert_eq!(row_for_position(&file, &saved), Some(2));
    assert!(diff_position(&file, 3, 0).is_none());

    file.hunks[0].collapsed = false;
    file.hunks[1].collapsed = true;
    restore_collapsed(&mut file, &saved);
    assert!(file.hunks[0].collapsed);
    assert!(!file.hunks[1].collapsed);
    assert_eq!(restore_scroll_offset(&file, &saved), 2);
}

#[test]
fn positions_are_limited_to_the_rows_of_their_hunk() {
    let file = two_hunk_file("a", "b");
    let far = DiffPosition {
        hunk_id: HunkId::synthetic("a"),
        row_in_hunk: 9,
        scroll_offset: 0,
        collapsed_hunks: vec![],
    };
    assert_eq!(row_for_position(&file, &far), Some(0));
    let gone = DiffPosition {
        hunk_id: HunkId::synthetic("missing"),
        row_in_hunk: 0,
        scroll_offset: 0,
        collapsed_hunks: vec![],
    };
    assert_eq!(row_for_position(&file, &gone), None);
}

#[test]
fn following_a_change_selects_the_last_changed_line() {
    let file = two_hunk_file("a", "b");
    assert!(all_rows_fit(&file));
    assert_eq!(latest_change_row(&file), Some(4));
    let mut unchanged = ChangedFile::empty("f".into(), FileStatus::Modified);
    unchanged.hunks = vec![hunk(
        "h",
        "@@ -1 +1 @@",
        HunkKind::Unstaged,
        vec![row(Some(1), Some(1), "same", "same", DiffRowKind::Context)],
        false,
    )];
    assert_eq!(latest_change_row(&unchanged), Some(0));
    let empty = ChangedFile::empty("e".into(), FileStatus::Modified);
    assert_eq!(latest_change_row(&empty), None);
}

#[test]
fn enter_folds_the_hunk_and_selects_its_header() {
    let mut file = ChangedFile::empty("f".into(), FileStatus::Modified);
    file.hunks = vec![
        hunk("a", "@@ a", HunkKind::Unstaged, vec![row(Some(1), Some(1), "x", "x", DiffRowKind::Context)], false),
        hunk(
            "b",
            "@@ b",
            HunkKind::Unstaged,
            vec![
                row(Some(5), Some(5), "y", "y", DiffRowKind::Context),
                row(Some(6), Some(6), "z", "w", DiffRowKind::Modified),
            ],
            false,
        ),
    ];
    let original = file.clone();
    assert_eq!(toggle_hunk_at(&mut file, 4), Some(2));
    assert!(file.hunks[1].collapsed);
    assert!(!file.hunks[0].collapsed);
    assert_eq!(diff_row_count(&file), 3);
    assert_eq!(toggle_hunk_at(&mut file, 2), Some(2));
    assert_eq!(file, original);
    assert_eq!(toggle_hunk_at(&mut file, 5), None);
    assert_eq!(file, original);
}

#[test]
fn a_reload_folds_the_hunks_again_and_keeps_the_row() {
    let before = two_hunk_file("first", "second");
    let position = diff_position(&before, 2, 1).expect("row 2 exists");
    let mut reloaded = two_hunk_file("first", "second");
    for hunk in &mut reloaded.hunks {
        hunk.collapsed = false;
    }
    assert_eq!(diff_row_count(&reloaded), 5);
    restore_collapsed(&mut reloaded, &position);
    assert_eq!(reloaded, before);
    assert_eq!(row_for_position(&reloaded, &position), Some(2));
    assert_eq!(restore_scroll_offset(&reloaded, &position), 1);
}
