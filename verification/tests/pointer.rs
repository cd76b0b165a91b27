use git_navigator::change_state::ChangeState;
use git_navigator::model::{
    ChangeMode, ChangedFile, DiffHunk, DiffLayout, DiffRow, DiffRowKind, DiffView, FileStatus, HunkId,
    HunkKind,
};
use git_navigator::navigation::Focus;
use git_navigator::pointer::{
    diff_texts_fit, list_row, mouse_action, mouse_focus, row_at_position, Area, MouseAction, MouseKind,
    Spot,
};

fn three_areas() -> [Area; 3] {
    [
        Area { x: 0, y: 0, width: 10, height: 10 },
        Area { x: 10, y: 0, width: 10, height: 10 },
        Area { x: 20, y: 0, width: 40, height: 10 },
    ]
}

fn areas() -> [Area; 3] {
    [
        Area { x: 0, y: 0, width: 30, height: 20 },
        Area { x: 30, y: 0, width: 30, height: 20 },
        Area { x: 60, y: 0, width: 40, height: 20 },
    ]
}

#[test]
fn clicks_focus_the_panel_under_them() {
    assert_eq!(mouse_focus(Spot { x: 5, y: 5 }, areas(), true), Some(Focus::Worktrees));
    assert_eq!(mouse_focus(Spot { x: 5, y: 5 }, areas(), false), None);
    assert_eq!(mouse_focus(Spot { x: 30, y: 19 }, areas(), true), Some(Focus::Files));
    assert_eq!(mouse_focus(Spot { x: 99, y: 0 }, areas(), true), Some(Focus::Diff));
    assert_eq!(mouse_focus(Spot { x: 100, y: 0 }, areas(), true), None);
    assert_eq!(mouse_focus(Spot { x: 10, y: 20 }, areas(), true), None);
    assert!(Area { x: 65535, y: 0, width: 10, height: 1 }.contains(Spot { x: 65534, y: 0 }) == false);
}

#[test]
fn worktree_items_take_two_lines() {
    let area = Area { x: 0, y: 4, width: 30, height: 20 };
    assert_eq!(list_row(Spot { x: 1, y: 4 }, area, Focus::Worktrees, 0), None);
    assert_eq!(list_row(Spot { x: 1, y: 5 }, area, Focus::Worktrees, 0), Some(0));
    assert_eq!(list_row(Spot { x: 1, y: 6 }, area, Focus::Worktrees, 0), Some(0));
    assert_eq!(list_row(Spot { x: 1, y: 7 }, area, Focus::Worktrees, 3), Some(4));
    assert_eq!(list_row(Spot { x: 1, y: 7 }, area, Focus::Files, 3), Some(5));
}

fn row(text: &str) -> DiffRow {
    DiffRow {
        old_number: Some(1),
        new_number: Some(1),
        old_text: Some(text.into()),
        new_text: Some(text.into()),
        kind: DiffRowKind::Context,
    }
}

fn file() -> ChangedFile {
    let mut file = ChangedFile::empty("file".into(), FileStatus::Modified);
    file.hunks = vec![
        DiffHunk {
            id: HunkId::synthetic("one"),
            header: "@@".into(),
            kind: HunkKind::Unstaged,
            rows: vec![row("short"), row("a much longer line of text that wraps")],
            collapsed: false,
        },
        DiffHunk {
            id: HunkId::synthetic("two"),
            header: "@@".into(),
            kind: HunkKind::Unstaged,
            rows: vec![row("hidden")],
            collapsed: true,
        },
        DiffHunk {
            id: HunkId::synthetic("three"),
            header: "@@".into(),
            kind: HunkKind::Unstaged,
            rows: vec![row("last")],
            collapsed: false,
        },
    ];
    file
}

#[test]
fn clicks_map_screen_lines_to_diff_rows() {
    let file = file();
    assert!(diff_texts_fit(&file));
    let area = Area { x: 0, y: 0, width: 30, height: 40 };
    let at = |y: u16, offset: usize, wrap: bool| {
        row_at_position(&file, DiffLayout::Unified, wrap, offset, Spot { x: 3, y }, area)
    };
    assert_eq!(at(2, 0, false), None);
    assert_eq!(at(3, 0, false), Some(0));
    assert_eq!(at(4, 0, false), Some(1));
    assert_eq!(at(5, 0, false), Some(2));
    assert_eq!(at(6, 0, false), Some(3));
    assert_eq!(at(7, 0, false), Some(4));
    assert_eq!(at(8, 0, false), Some(5));
    assert_eq!(at(9, 0, false), None);
    assert_eq!(at(3, 2, false), Some(2));
    assert_eq!(at(3, 0, true), Some(0));
    assert_eq!(at(5, 0, true), Some(2));
    assert_eq!(at(6, 0, true), Some(2));
    assert_eq!(at(8, 0, true), Some(2));
    assert_eq!(at(9, 0, true), Some(3));
}

#[test]
fn the_wheel_scrolls_the_panel_under_the_pointer_by_three_rows() {
    let areas = three_areas();
    assert_eq!(
        mouse_action(MouseKind::ScrollDown, Spot { x: 25, y: 5 }, areas, false, false, false, Focus::Diff),
        MouseAction::Scroll { focus: Focus::Diff, delta: 3 }
    );
    assert_eq!(
        mouse_action(MouseKind::ScrollUp, Spot { x: 12, y: 5 }, areas, false, false, false, Focus::Diff),
        MouseAction::Scroll { focus: Focus::Files, delta: -3 }
    );
    assert_eq!(
        mouse_action(MouseKind::ScrollUp, Spot { x: 2, y: 5 }, areas, false, false, false, Focus::Diff),
        MouseAction::Ignore
    );
    assert_eq!(
        mouse_action(MouseKind::ScrollUp, Spot { x: 2, y: 5 }, areas, true, false, false, Focus::Diff),
        MouseAction::Scroll { focus: Focus::Worktrees, delta: -3 }
    );
    assert_eq!(
        mouse_action(MouseKind::ScrollDown, Spot { x: 25, y: 5 }, areas, true, true, false, Focus::Diff),
        MouseAction::Ignore
    );
}

#[test]
fn a_press_picks_rows_and_the_diff_panel_only_once_its_rows_are_shown() {
    let areas = three_areas();
    assert_eq!(
        mouse_action(MouseKind::LeftPress, Spot { x: 12, y: 5 }, areas, true, false, false, Focus::Diff),
        MouseAction::PickRow(Focus::Files)
    );
    assert_eq!(
        mouse_action(MouseKind::LeftPress, Spot { x: 25, y: 5 }, areas, true, false, false, Focus::Files),
        MouseAction::PickDiffRow { rows_shown: false }
    );
    assert_eq!(
        mouse_action(MouseKind::LeftPress, Spot { x: 25, y: 5 }, areas, true, false, true, Focus::Files),
        MouseAction::PickDiffRow { rows_shown: true }
    );
    assert_eq!(
        mouse_action(MouseKind::LeftPress, Spot { x: 25, y: 5 }, areas, true, false, false, Focus::Diff),
        MouseAction::PickDiffRow { rows_shown: true }
    );
    assert_eq!(
        mouse_action(MouseKind::Other, Spot { x: 25, y: 5 }, areas, true, false, false, Focus::Diff),
        MouseAction::Ignore
    );
    assert_eq!(
        mouse_action(MouseKind::LeftPress, Spot { x: 90, y: 5 }, areas, true, false, false, Focus::Diff),
        MouseAction::Ignore
    );
}

#[test]
fn scrolling_over_the_focused_diff_moves_its_selection() {
    let mut changes = ChangeState::new(ChangeMode::Uncommitted, DiffView::Hunks);
    let mut file = ChangedFile::empty("src/main.rs".into(), FileStatus::Modified);
    file.additions = 2;
    file.deletions = 2;
    let changed = |n: usize, old: &str, new: &str| DiffRow {
        old_number: Some(n),
        new_number: Some(n),
        old_text: Some(old.into()),
        new_text: Some(new.into()),
        kind: DiffRowKind::Modified,
    };
    file.hunks.push(DiffHunk {
        id: HunkId::synthetic("test-hunk-7"),
        header: "@@".into(),
        kind: HunkKind::Combined,
        collapsed: false,
        rows: vec![changed(1, "one", "ONE"), changed(2, "two", "TWO"), changed(3, "three", "THREE")],
    });
    changes.install_files(vec![file]);
    changes.select_file_path(Some("src/main.rs".into()));
    changes.file_list.select(Some(0));
    changes.diff_list.select(Some(0));
    let action = mouse_action(
        MouseKind::ScrollDown,
        Spot { x: 25, y: 5 },
        three_areas(),
        false,
        false,
        false,
        Focus::Diff,
    );
    assert_eq!(action, MouseAction::Scroll { focus: Focus::Diff, delta: 3 });
    if let MouseAction::Scroll { delta, .. } = action {
        changes.move_diff_by(delta);
    }
    assert_eq!(changes.diff_list.selected, Some(3));
}
