use git_navigator::change_state::ChangeState;
use git_navigator::model::{
    ChangeMode, ChangedFile, DiffHunk, DiffRow, DiffRowKind, DiffView, FileStatus, HunkId,
    HunkKind, Worktree,
};
use git_navigator::projection::panels;

fn worktree(path: &str, branch: &str, is_main: bool) -> Worktree {
    Worktree {
        path: path.into(),
        branch: branch.into(),
        head: "12345678".into(),
        dirty: false,
        is_current: is_main,
        is_main,
        available: true,
        prunable_reason: None,
        locked_reason: None,
    }
}

#[test]
fn derives_visible_rows_and_selection_positions() {
    let files = vec![
        ChangedFile::empty("tests/test.rs".into(), FileStatus::Modified),
        ChangedFile {
            path: "src/main.rs".into(),
            old_path: None,
            status: FileStatus::Modified,
            additions: 1,
            deletions: 0,
            hunks: vec![DiffHunk {
                id: HunkId::synthetic("main-hunk"),
                header: "@@".into(),
                kind: HunkKind::Unstaged,
                rows: vec![DiffRow {
                    old_number: Some(1),
                    new_number: Some(1),
                    old_text: Some("old".into()),
                    new_text: Some("new".into()),
                    kind: DiffRowKind::Modified,
                }],
                collapsed: false,
            }],
            binary: false,
        },
    ];
    let mut changes = ChangeState::new(ChangeMode::Uncommitted, DiffView::Hunks);
    changes.install_files(files);
    let selected_file_row = changes.tree_index("src/main.rs").expect("selected file should be in the tree");
    changes.select_file_path(Some("src/main.rs".into()));
    assert_eq!(changes.file_list.selected, Some(selected_file_row));
    changes.diff_list.selected = Some(0);
    let worktrees = vec![worktree("/repo", "main", true), worktree("/repo/agent", "agent", false)];

    let projection = panels(&worktrees, "agent", Some(1), false, &changes, "main");
    assert!(projection.show_worktrees);
    assert_eq!(projection.worktree_rows, vec![1]);
    assert_eq!(projection.selected_worktree, Some(0));
    assert_eq!(
        projection
            .file_rows
            .iter()
            .map(|index| changes.file_tree[*index].path.clone())
            .collect::<Vec<_>>(),
        vec!["src".to_string(), "src/main.rs".to_string()]
    );
    assert_eq!(projection.selected_file, Some(1));
    assert_eq!(projection.selected_hunk, Some(0));
}

#[test]
fn the_first_panel_hides_without_linked_worktrees_or_history() {
    let changes = ChangeState::new(ChangeMode::Uncommitted, DiffView::Hunks);
    let worktrees = vec![worktree("/repo", "main", true)];
    let projection = panels(&worktrees, "", Some(0), false, &changes, "");
    assert!(!projection.show_worktrees);
    assert_eq!(projection.worktree_rows, vec![0]);
    assert_eq!(projection.selected_worktree, Some(0));
    assert_eq!(projection.selected_file, None);
    assert_eq!(projection.selected_hunk, None);
    assert!(panels(&worktrees, "", None, true, &changes, "").show_worktrees);
}
