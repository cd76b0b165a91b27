use git_navigator::changes::{
    commit_diff_start, load_changes, load_commit_changes, merge_files, merge_status, parse_diff,
    patch_line_numbers_fit, sort_by_path, untracked_file, untracked_paths,
};
use git_navigator::model::{ChangeMode, ChangedFile, DiffRowKind, DiffView, FileStatus, HunkKind};
use git_navigator::patch::parse_hunk_header;

#[test]
fn parses_side_by_side_rows_and_line_numbers() {
    let patch = r#"diff --git a/src/main.rs b/src/main.rs
index 1111111..2222222 100644
--- a/src/main.rs
+++ b/src/main.rs
@@ -1,4 +1,5 @@
 context
-old one
-old two
+new one
+new two
+new three
 context two
"#;

    let files = parse_diff(patch, HunkKind::Staged);
    assert_eq!(files.len(), 1);
    assert_eq!(files[0].path, "src/main.rs");
    assert_eq!(files[0].additions, 3);
    assert_eq!(files[0].deletions, 2);
    assert_eq!(files[0].hunks[0].kind, HunkKind::Staged);
    assert_eq!(files[0].hunks[0].rows[1].kind, DiffRowKind::Modified);
    assert_eq!(files[0].hunks[0].rows[3].kind, DiffRowKind::Added);
    assert_eq!(files[0].hunks[0].rows[3].new_number, Some(4));
}

#[test]
fn parses_new_and_deleted_files() {
    let patch = r#"diff --git a/new.txt b/new.txt
new file mode 100644
index 0000000..1111111
--- /dev/null
+++ b/new.txt
@@ -0,0 +1 @@
+hello
diff --git a/old.txt b/old.txt
deleted file mode 100644
index 1111111..0000000
--- a/old.txt
+++ /dev/null
@@ -1 +0,0 @@
-goodbye
"#;

    let files = parse_diff(patch, HunkKind::Combined);
    assert_eq!(files[0].status, FileStatus::Added);
    assert_eq!(files[0].path, "new.txt");
    assert_eq!(files[1].status, FileStatus::Deleted);
    assert_eq!(files[1].path, "old.txt");
}

#[test]
fn parses_hunk_ranges_with_and_without_counts() {
    assert_eq!(parse_hunk_header("@@ -12 +15 @@"), Some((12, 15)));
    assert_eq!(parse_hunk_header("@@ -2,3 +4,8 @@ name"), Some((2, 4)));
}

#[test]
fn rejects_malformed_hunk_headers() {
    assert_eq!(parse_hunk_header("@@ -x +1 @@"), None);
    assert_eq!(parse_hunk_header("@@ -1"), None);
    assert_eq!(parse_hunk_header("-1 +1"), None);
}

#[test]
fn preserves_a_deleted_path_containing_spaces() {
    let patch = r#"diff --git "a/file with spaces.txt" "b/file with spaces.txt"
deleted file mode 100644
index 1111111..0000000
--- "a/file with spaces.txt"
+++ /dev/null
@@ -1 +0,0 @@
-goodbye
"#;

    let files = parse_diff(patch, HunkKind::Combined);
    assert_eq!(files.len(), 1);
    assert_eq!(files[0].path, "file with spaces.txt");
}

#[test]
fn assigns_distinct_ids_to_duplicate_hunks_and_preserves_change_kind() {
    let patch = r#"diff --git a/file.txt b/file.txt
index 1111111..2222222 100644
--- a/file.txt
+++ b/file.txt
@@ -1 +1 @@
-old
+new
@@ -1 +1 @@
-old
+new
"#;

    let staged = parse_diff(patch, HunkKind::Staged);
    assert_eq!(staged[0].hunks.len(), 2);
    assert_ne!(staged[0].hunks[0].id, staged[0].hunks[1].id);
    assert_eq!(staged[0].hunks[0].kind, HunkKind::Staged);

    let mut merged = staged;
    merge_files(&mut merged, parse_diff(patch, HunkKind::Unstaged));
    assert_eq!(merged[0].hunks.len(), 4);
    assert_eq!(merged[0].hunks[2].kind, HunkKind::Unstaged);
    assert_eq!(merged[0].hunks[3].kind, HunkKind::Unstaged);
    assert_ne!(merged[0].hunks[0].id, merged[0].hunks[2].id);
    assert_ne!(merged[0].hunks[1].id, merged[0].hunks[3].id);
}

#[test]
fn merged_statuses_prefer_the_strongest_change() {
    assert_eq!(merge_status(FileStatus::Modified, FileStatus::Conflicted), FileStatus::Conflicted);
    assert_eq!(merge_status(FileStatus::Added, FileStatus::Modified), FileStatus::Added);
    assert_eq!(merge_status(FileStatus::Modified, FileStatus::Modified), FileStatus::Modified);
}

#[test]
fn untracked_text_files_become_one_added_hunk() {
    let file = untracked_file("notes.txt".into(), b"one\ntwo\n");
    assert_eq!(file.status, FileStatus::Untracked);
    assert_eq!(file.additions, 2);
    assert_eq!(file.hunks.len(), 1);
    assert_eq!(file.hunks[0].header, "@@ -0,0 +1,2 @@");
    assert_eq!(file.hunks[0].kind, HunkKind::Untracked);
    assert_eq!(file.hunks[0].rows[1].new_number, Some(2));
    assert_eq!(file.hunks[0].rows[1].new_text.as_deref(), Some("two"));
    assert!(!file.binary);
}

#[test]
fn untracked_binary_files_have_no_hunks() {
    let binary = untracked_file("image.bin".into(), &[1, 0, 2]);
    assert!(binary.binary);
    assert!(binary.hunks.is_empty());
    let invalid = untracked_file("latin1.txt".into(), &[0xff, 0xfe]);
    assert!(invalid.binary);
    let empty = untracked_file("empty.txt".into(), b"");
    assert!(!empty.binary);
    assert!(empty.hunks.is_empty());
}

#[test]
fn untracked_paths_split_at_nul_bytes() {
    let paths = untracked_paths(b"a.txt\0dir/b c.txt\0\0");
    assert_eq!(paths, vec![b"a.txt".to_vec(), b"dir/b c.txt".to_vec()]);
    assert!(untracked_paths(b"").is_empty());
    assert_eq!(untracked_paths(b"last"), vec![b"last".to_vec()]);
}

#[test]
fn uncommitted_changes_merge_staged_unstaged_and_untracked_in_path_order() {
    let staged = "diff --git a/b.txt b/b.txt\n--- a/b.txt\n+++ b/b.txt\n@@ -1 +1 @@\n-x\n+y\n";
    let unstaged = "diff --git a/a.txt b/a.txt\n--- a/a.txt\n+++ b/a.txt\n@@ -1 +1 @@\n-p\n+q\ndiff --git a/b.txt b/b.txt\n--- a/b.txt\n+++ b/b.txt\n@@ -2 +2 @@\n-z\n+w\n";
    assert!(patch_line_numbers_fit(staged) && patch_line_numbers_fit(unstaged));
    let untracked = vec![untracked_file("new.txt".into(), b"n\n")];
    let files = load_changes(ChangeMode::Uncommitted, DiffView::Hunks, staged, unstaged, untracked);
    let paths: Vec<&str> = files.iter().map(|f| f.path.as_str()).collect();
    assert_eq!(paths, vec!["a.txt", "b.txt", "new.txt"]);
    assert_eq!(files[1].hunks.len(), 2);
    assert_eq!(files[1].hunks[0].kind, HunkKind::Staged);
    assert_eq!(files[1].hunks[1].kind, HunkKind::Unstaged);
    assert_eq!(files[2].status, FileStatus::Untracked);
}

#[test]
fn commit_changes_use_combined_or_full_file_hunks() {
    let patch = "diff --git a/a.txt b/a.txt\n--- a/a.txt\n+++ b/a.txt\n@@ -1 +1 @@\n-p\n+q\n";
    let hunks = load_commit_changes(DiffView::Hunks, patch);
    assert_eq!(hunks[0].hunks[0].kind, HunkKind::Combined);
    let full = load_commit_changes(DiffView::FullFile, patch);
    assert_eq!(full[0].hunks[0].kind, HunkKind::FullFile);
}

#[test]
fn paths_sort_with_directories_before_longer_names() {
    let files = vec![
        ChangedFile::empty("src-extra.rs".into(), FileStatus::Modified),
        ChangedFile::empty("src/main.rs".into(), FileStatus::Modified),
        ChangedFile::empty("AGENTS.md".into(), FileStatus::Modified),
    ];
    let sorted = sort_by_path(files);
    let paths: Vec<&str> = sorted.iter().map(|f| f.path.as_str()).collect();
    assert_eq!(paths, vec!["AGENTS.md", "src/main.rs", "src-extra.rs"]);
}

#[test]
fn root_commits_start_from_the_empty_tree() {
    assert_eq!(commit_diff_start(Some("abc\n")), "abc");
    assert_eq!(commit_diff_start(None), "4b825dc642cb6eb9a060e54bf8d69288fbee4904");
}

#[test]
fn parses_of_different_kinds_never_share_a_hunk_id() {
    let patch = "diff --git a/file.txt b/file.txt\n--- a/file.txt\n+++ b/file.txt\n@@ -1 +1 @@\n-old\n+new\n";
    let kinds = [
        HunkKind::Staged,
        HunkKind::Unstaged,
        HunkKind::Combined,
        HunkKind::FullFile,
        HunkKind::Untracked,
    ];
    let ids: Vec<String> = kinds
        .iter()
        .map(|kind| parse_diff(patch, *kind)[0].hunks[0].id.0.clone())
        .collect();
    for (a, first) in ids.iter().enumerate() {
        for second in &ids[a + 1..] {
            assert_ne!(first, second);
        }
    }
}
