use git_navigator::files::{
    filtered_tree, first_file_row, first_file_row_in, moved_visible_file_selection,
};
use git_navigator::model::{ChangedFile, FileStatus, FileTreeRow, FileTreeRowKind};

fn dir(path: &str) -> FileTreeRow {
    FileTreeRow {
        path: path.into(),
        kind: FileTreeRowKind::Directory,
    }
}

fn file(path: &str) -> FileTreeRow {
    FileTreeRow {
        path: path.into(),
        kind: FileTreeRowKind::File,
    }
}

#[test]
fn app_visible_file_navigation_skips_filtered_directories() {
    let tree = vec![dir("src"), file("src/main.rs"), file("tests/test.rs")];
    let visible = vec![0, 1, 2];
    assert_eq!(moved_visible_file_selection(None, &visible, &tree, 1), Some(2));
    assert_eq!(moved_visible_file_selection(Some(1), &visible, &tree, 1), Some(2));
}

#[test]
fn mod_visible_file_navigation_skips_filtered_directories() {
    let tree = vec![dir("src"), file("src/main.rs"), file("tests/test.rs")];
    let visible = vec![0, 1, 2];
    assert_eq!(moved_visible_file_selection(None, &visible, &tree, 1), Some(2));
    assert_eq!(moved_visible_file_selection(Some(1), &visible, &tree, 1), Some(2));
}

#[test]
fn app_file_navigation_skips_directories() {
    let tree = vec![dir("src"), file("src/a.rs"), dir("tests"), file("tests/a.rs")];

    assert_eq!(first_file_row(&tree), Some(1));
    assert_eq!(moved_visible_file_selection(Some(1), &vec![0, 1, 2, 3], &tree, 1), Some(3));
    assert_eq!(moved_visible_file_selection(Some(3), &vec![0, 1, 2, 3], &tree, -1), Some(1));
    assert_eq!(moved_visible_file_selection(Some(1), &vec![0, 1, 2, 3], &tree, -1), Some(1));
    assert_eq!(moved_visible_file_selection(Some(3), &vec![0, 1, 2, 3], &tree, 1), Some(3));
}

#[test]
fn mod_file_navigation_skips_directories() {
    let tree = vec![dir("src"), file("src/a.rs"), dir("tests"), file("tests/a.rs")];

    assert_eq!(first_file_row(&tree), Some(1));
    assert_eq!(moved_visible_file_selection(Some(1), &vec![0, 1, 2, 3], &tree, 1), Some(3));
    assert_eq!(moved_visible_file_selection(Some(3), &vec![0, 1, 2, 3], &tree, -1), Some(1));
    assert_eq!(moved_visible_file_selection(Some(1), &vec![0, 1, 2, 3], &tree, -1), Some(1));
    assert_eq!(moved_visible_file_selection(Some(3), &vec![0, 1, 2, 3], &tree, 1), Some(3));
}

#[test]
fn a_tree_without_files_has_no_file_selection() {
    let tree = vec![dir("src"), dir("src/git")];
    assert_eq!(first_file_row(&tree), None);
    assert_eq!(first_file_row_in(&tree, &vec![0, 1]), None);
    assert_eq!(moved_visible_file_selection(Some(0), &vec![0, 1], &tree, 1), None);
}

#[test]
fn first_visible_file_row_follows_the_visible_order() {
    let tree = vec![dir("src"), file("src/a.rs"), file("src/b.rs")];
    assert_eq!(first_file_row_in(&tree, &vec![0, 2, 1]), Some(2));
    assert_eq!(first_file_row_in(&tree, &vec![]), None);
}

#[test]
fn filtering_keeps_matching_files_and_their_directories() {
    let tree = vec![
        dir("src"),
        dir("src/git"),
        file("src/git/parser.rs"),
        file("src/main.rs"),
        dir("tests"),
        file("tests/test.rs"),
    ];
    let files = vec![
        ChangedFile::empty("src/git/parser.rs".into(), FileStatus::Modified),
        ChangedFile::empty("src/main.rs".into(), FileStatus::Modified),
        ChangedFile::empty("tests/test.rs".into(), FileStatus::Added),
    ];
    assert_eq!(filtered_tree(&tree, &files, "parser"), vec![0, 1, 2]);
    assert_eq!(filtered_tree(&tree, &files, ""), vec![0, 1, 2, 3, 4, 5]);
    assert_eq!(filtered_tree(&tree, &files, "TEST"), vec![4, 5]);
    assert_eq!(filtered_tree(&tree, &files, "zzz"), Vec::<usize>::new());
}

#[test]
fn filtering_matches_directories_by_whole_components() {
    let tree = vec![dir("src"), dir("srcx"), file("srcx/a.rs")];
    let files = vec![ChangedFile::empty("srcx/a.rs".into(), FileStatus::Modified)];
    assert_eq!(filtered_tree(&tree, &files, "a.rs"), vec![1, 2]);
}
