use git_navigator::diff_rows::{latest_change_row, row_at};
use git_navigator::files::first_file_row;
use git_navigator::model::{
    ChangedFile, Commit, DiffHunk, DiffRow, DiffRowKind, FileStatus, FileTreeRow, FileTreeRowKind,
    HistorySelection, HunkId, HunkKind, Worktree,
};
use git_navigator::navigation::WorktreePanel;
use git_navigator::selection::{
    commit_selection, file_row_choice, find_commit, follow_changed_paths, has_linked_worktrees,
    initial_worktree, selected_location, stale_metadata_entry, worktree_choice, moved_visible_selection, MetadataEntry,
    StaleMetadataError,
};
use git_navigator::tree::build_tree;

fn worktree(path: &str, branch: &str, is_main: bool) -> Worktree {
    Worktree {
        path: path.into(),
        branch: branch.into(),
        head: "12345678".into(),
        dirty: false,
        is_current: is_main,
        is_main,
        available: true,
        prunable_reason: None,
        locked_reason: None,
    }
}

fn located_file() -> ChangedFile {
    ChangedFile {
        path: "src/main.rs".into(),
        old_path: None,
        status: FileStatus::Modified,
        additions: 1,
        deletions: 1,
        hunks: vec![DiffHunk {
            id: HunkId::synthetic("test-hunk-1"),
            header: "@@".into(),
            kind: HunkKind::Unstaged,
            collapsed: false,
            rows: vec![
                DiffRow {
                    old_number: Some(3),
                    new_number: Some(4),
                    old_text: Some("old".into()),
                    new_text: Some("new".into()),
                    kind: DiffRowKind::Modified,
                },
                DiffRow {
                    old_number: Some(5),
                    new_number: None,
                    old_text: Some("deleted".into()),
                    new_text: None,
                    kind: DiffRowKind::Deleted,
                },
            ],
        }],
        binary: false,
    }
}

fn selected_location_prefers_new_line_and_falls_back_to_old_line() {
    let file = located_file();
    let worktrees = vec![worktree("/repo/worktree", "main", true)];
    let selected = &worktrees[initial_worktree(&worktrees)];
    let row = row_at(&file, 1).expect("row 1 is a diff line");
    assert_eq!(
        selected_location(&selected.path, &file.path, row),
        Some("/repo/worktree/src/main.rs:4".into())
    );
    let row = row_at(&file, 2).expect("row 2 is a diff line");
    assert_eq!(
        selected_location(&selected.path, &file.path, row),
        Some("/repo/worktree/src/main.rs:5".into())
    );
}

#[test]
fn app_selected_location_prefers_new_line_and_falls_back_to_old_line() {
    selected_location_prefers_new_line_and_falls_back_to_old_line();
}

#[test]
fn mod_selected_location_prefers_new_line_and_falls_back_to_old_line() {
    selected_location_prefers_new_line_and_falls_back_to_old_line();
}

#[test]
fn follow_toggle_selects_latest_changed_file_and_diff_row() {
    let mut first = ChangedFile::empty("first.txt".into(), FileStatus::Modified);
    first.hunks.push(DiffHunk {
        id: HunkId::synthetic("first"),
        header: "@@".into(),
        kind: HunkKind::Unstaged,
        collapsed: false,
        rows: vec![DiffRow {
            old_number: Some(1),
            new_number: Some(1),
            old_text: Some("old".into()),
            new_text: Some("new".into()),
            kind: DiffRowKind::Modified,
        }],
    });
    let mut second = ChangedFile::empty("src/second.txt".into(), FileStatus::Untracked);
    second.hunks.push(DiffHunk {
        id: HunkId::synthetic("second"),
        header: "@@".into(),
        kind: HunkKind::Untracked,
        collapsed: false,
        rows: vec![DiffRow {
            old_number: None,
            new_number: Some(1),
            old_text: None,
            new_text: Some("new file".into()),
            kind: DiffRowKind::Added,
        }],
    });
    let files = vec![first, second];

    let followed = follow_changed_paths(&vec!["/repo/src/second.txt".to_string()], "/repo", &files);
    assert_eq!(followed.as_deref(), Some("src/second.txt"));
    let file = files.iter().find(|file| Some(file.path.as_str()) == followed.as_deref()).unwrap();
    assert_eq!(latest_change_row(file), Some(1));
}

fn history_commit_reload_prefers_the_remembered_file() {
    let preferred = Some("src/app.rs");
    let files = vec![
        ChangedFile::empty("README.md".into(), FileStatus::Modified),
        ChangedFile::empty("src/app.rs".into(), FileStatus::Modified),
    ];
    let tree = build_tree(&files);
    let selected = preferred
        .and_then(|path| tree.iter().position(|row| !row.is_directory() && row.path == path))
        .or_else(|| first_file_row(&tree));

    assert_eq!(selected.map(|row| tree[row].path.clone()), Some("src/app.rs".to_string()));
}

#[test]
fn app_history_commit_reload_prefers_the_remembered_file() {
    history_commit_reload_prefers_the_remembered_file();
}

#[test]
fn mod_history_commit_reload_prefers_the_remembered_file() {
    history_commit_reload_prefers_the_remembered_file();
}

fn a_single_worktree_can_start_in_history_mode() {
    let worktrees = vec![worktree("/repo", "main", true)];
    let linked = has_linked_worktrees(&worktrees);
    assert!(!linked);
    let panel = if linked { WorktreePanel::Worktrees } else { WorktreePanel::History };
    let selection = (!linked).then_some(HistorySelection::Wip);

    assert_eq!(panel, WorktreePanel::History);
    assert_eq!(selection, Some(HistorySelection::Wip));
}

#[test]
fn app_a_single_worktree_can_start_in_history_mode() {
    a_single_worktree_can_start_in_history_mode();
}

#[test]
fn mod_a_single_worktree_can_start_in_history_mode() {
    a_single_worktree_can_start_in_history_mode();
}

#[test]
fn stale_cleanup_refuses_a_path_not_present_in_metadata() {
    let entries = vec![MetadataEntry {
        path: "/repo/.git/worktrees/other".into(),
        is_dir: true,
        gitdir: Some("/repo/other/.git\n".into()),
    }];
    let error = stale_metadata_entry(&entries, "/repo/not-registered")
        .expect_err("an unregistered path must not be removed");
    assert_eq!(error, StaleMetadataError::NotRegistered);
    assert!(error
        .message("/repo/not-registered")
        .contains("could not find Git metadata registered"));
}

#[test]
fn stale_cleanup_finds_the_single_registration() {
    let entries = vec![
        MetadataEntry { path: "/repo/.git/worktrees/a".into(), is_dir: true, gitdir: Some("/repo/a/.git\n".into()) },
        MetadataEntry { path: "/repo/.git/worktrees/b".into(), is_dir: true, gitdir: Some("/repo/b/.git".into()) },
        MetadataEntry { path: "/repo/.git/worktrees/c".into(), is_dir: false, gitdir: Some("/repo/b/.git".into()) },
    ];
    assert_eq!(stale_metadata_entry(&entries, "/repo/b"), Ok("/repo/.git/worktrees/b".to_string()));
    let twice = vec![
        MetadataEntry { path: "/x/1".into(), is_dir: true, gitdir: Some("/repo/b/.git".into()) },
        MetadataEntry { path: "/x/2".into(), is_dir: true, gitdir: Some("/repo/b/.git".into()) },
    ];
    let error = stale_metadata_entry(&twice, "/repo/b").unwrap_err();
    assert_eq!(error, StaleMetadataError::Ambiguous);
    assert_eq!(error.message("/repo/b"), "multiple Git metadata entries refer to /repo/b; refusing cleanup");
}

#[test]
fn the_current_worktree_is_selected_first() {
    let mut worktrees = vec![worktree("/repo", "main", true), worktree("/repo/b", "b", false)];
    worktrees[0].is_current = false;
    worktrees[1].is_current = true;
    assert_eq!(initial_worktree(&worktrees), 1);
    assert_eq!(initial_worktree(&vec![]), 0);
    assert!(has_linked_worktrees(&worktrees));
}

#[test]
fn clicks_pick_only_new_rows() {
    assert_eq!(worktree_choice(&vec![2, 5], 1, Some(2)), Some(5));
    assert_eq!(worktree_choice(&vec![2, 5], 1, Some(5)), None);
    assert_eq!(worktree_choice(&vec![2, 5], 2, None), None);
    let tree = vec![
        FileTreeRow { path: "src".into(), kind: FileTreeRowKind::Directory },
        FileTreeRow { path: "src/a.rs".into(), kind: FileTreeRowKind::File },
    ];
    assert_eq!(file_row_choice(&vec![0, 1], &tree, 0, None), None);
    assert_eq!(file_row_choice(&vec![0, 1], &tree, 1, None), Some(1));
    assert_eq!(file_row_choice(&vec![0, 1], &tree, 1, Some(1)), None);
    assert_eq!(file_row_choice(&vec![0, 1], &tree, 7, None), None);
}

fn commit(hash: &str, short: &str) -> Commit {
    Commit {
        hash: hash.into(),
        parents: vec![],
        short_hash: short.into(),
        subject: "subject".into(),
        graph: vec!["●".into()],
    }
}

#[test]
fn commits_are_found_by_full_or_short_hash() {
    let commits = vec![commit("aaaa1111", "aaaa"), commit("bbbb2222", "bbbb")];
    assert_eq!(find_commit(&commits, "bbbb"), Some(1));
    assert_eq!(find_commit(&commits, "aaaa1111"), Some(0));
    assert_eq!(find_commit(&commits, "cccc"), None);
    assert_eq!(commit_selection(0, &commits), Some(HistorySelection::Wip));
    assert_eq!(
        commit_selection(2, &commits),
        Some(HistorySelection::Commit { hash: "bbbb2222".into() })
    );
    assert_eq!(commit_selection(3, &commits), None);
}

#[test]
fn a_refresh_keeps_the_selected_worktree_by_path() {
    let mut worktrees = vec![
        worktree("/repo", "main", true),
        worktree("/repo/a", "a", false),
        worktree("/repo/b", "b", false),
    ];
    assert_eq!(git_navigator::selection::worktree_after_refresh(&worktrees, Some("/repo/b")), Some(2));
    assert_eq!(git_navigator::selection::worktree_after_refresh(&worktrees, Some("/gone")), Some(0));
    worktrees[0].is_current = false;
    worktrees[1].is_current = true;
    assert_eq!(git_navigator::selection::worktree_after_refresh(&worktrees, None), Some(1));
    assert_eq!(git_navigator::selection::worktree_after_refresh(&vec![], Some("/repo")), None);
}

#[test]
fn metadata_is_matched_by_path_components() {
    let entry = |gitdir: &str| MetadataEntry {
        path: "/repo/.git/worktrees/b".into(),
        is_dir: true,
        gitdir: Some(gitdir.into()),
    };
    for gitdir in ["/repo/b/.git/", "/repo//b/./.git", " /repo/b/.git\n", "/repo/b/.git/."] {
        assert_eq!(
            stale_metadata_entry(&vec![entry(gitdir)], "/repo/b"),
            Ok("/repo/.git/worktrees/b".to_string()),
            "{gitdir}"
        );
    }
    assert_eq!(
        stale_metadata_entry(&vec![entry("/repo/b/.git")], "/repo/b/"),
        Ok("/repo/.git/worktrees/b".to_string())
    );
    for gitdir in ["/repo/bb/.git", "/repo/b/.gitx", "repo/b/.git", "/repo/b/../b/.git"] {
        assert!(stale_metadata_entry(&vec![entry(gitdir)], "/repo/b").is_err(), "{gitdir}");
    }
}

#[test]
fn moving_among_shown_worktrees_stops_at_the_ends() {
    let visible = vec![1, 4, 6];
    assert_eq!(moved_visible_selection(&visible, Some(4), 1), Some(6));
    assert_eq!(moved_visible_selection(&visible, Some(6), 1), Some(6));
    assert_eq!(moved_visible_selection(&visible, Some(4), -5), Some(1));
    assert_eq!(moved_visible_selection(&visible, Some(5), 1), Some(4));
    assert_eq!(moved_visible_selection(&visible, None, 0), Some(1));
    assert_eq!(moved_visible_selection(&vec![], Some(1), 1), None);
}
