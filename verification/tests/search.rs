use git_navigator::model::{ChangedFile, DiffHunk, DiffRow, DiffRowKind, FileStatus, HunkId, HunkKind};
use git_navigator::search::{diff_matches, next_search_match, search_match_position};

fn line(text: &str) -> DiffRow {
    DiffRow {
        old_number: Some(1),
        new_number: Some(1),
        old_text: Some(text.into()),
        new_text: Some(text.into()),
        kind: DiffRowKind::Context,
    }
}

fn file_with(rows: Vec<DiffRow>, collapsed: bool) -> ChangedFile {
    let mut file = ChangedFile::empty("src/main.rs".into(), FileStatus::Modified);
    file.hunks = vec![
        DiffHunk {
            id: HunkId::synthetic("first"),
            header: "@@ -1,5 +1,5 @@".into(),
            kind: HunkKind::Unstaged,
            rows,
            collapsed,
        },
        DiffHunk {
            id: HunkId::synthetic("second"),
            header: "@@ -20 +20 @@ Target".into(),
            kind: HunkKind::Unstaged,
            rows: vec![line("gamma")],
            collapsed: false,
        },
    ];
    file
}

#[test]
fn diff_search_finds_rows_case_insensitively() {
    let file = file_with(
        vec![line("alpha"), line("target one"), line("beta"), line("TARGET two")],
        false,
    );
    assert_eq!(diff_matches(Some(&file), "target"), vec![2, 4, 5]);
    assert_eq!(diff_matches(Some(&file), "ALPHA"), vec![1]);
    assert_eq!(diff_matches(None, "alpha"), Vec::<usize>::new());
}

#[test]
fn collapsed_hunks_hide_their_lines_from_search() {
    let file = file_with(vec![line("target one")], true);
    assert_eq!(diff_matches(Some(&file), "target"), vec![1]);
}

#[test]
fn a_missing_side_matches_only_the_empty_query() {
    let mut file = ChangedFile::empty("f".into(), FileStatus::Added);
    file.hunks = vec![DiffHunk {
        id: HunkId::synthetic("h"),
        header: "@@".into(),
        kind: HunkKind::Combined,
        rows: vec![DiffRow {
            old_number: None,
            new_number: Some(1),
            old_text: None,
            new_text: Some("added".into()),
            kind: DiffRowKind::Added,
        }],
        collapsed: false,
    }];
    assert_eq!(diff_matches(Some(&file), "add"), vec![1]);
    assert_eq!(diff_matches(Some(&file), ""), vec![0, 1]);
}

#[test]
fn search_navigation_wraps_at_both_ends() {
    let matches = vec![2, 4, 5];
    assert_eq!(next_search_match(&matches, Some(2), 1), 4);
    assert_eq!(next_search_match(&matches, Some(5), 1), 2);
    assert_eq!(next_search_match(&matches, Some(4), -1), 2);
    assert_eq!(next_search_match(&matches, Some(2), -1), 5);
    assert_eq!(next_search_match(&matches, Some(3), 0), 2);
    assert_eq!(next_search_match(&matches, None, -1), 5);
    assert_eq!(next_search_match(&matches, Some(0), 1), 2);
}

#[test]
fn search_position_counts_from_one() {
    let matches = vec![2, 4, 5];
    assert_eq!(search_match_position(&matches, Some(4)), (2, 3));
    assert_eq!(search_match_position(&matches, Some(3)), (0, 3));
    assert_eq!(search_match_position(&matches, None), (0, 3));
    assert_eq!(search_match_position(&Vec::new(), Some(1)), (0, 0));
}
