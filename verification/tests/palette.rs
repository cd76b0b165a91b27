use git_navigator::labels::status_label;
use git_navigator::model::{ChangeMode, ChangedFile, DiffRowKind, FileStatus, HunkKind};
use git_navigator::navigation::StatusKind;
use git_navigator::palette::{badge_hues, file_hue, line_hues, status_hues, Hue};

fn branch_file_colors_follow_change_shape() {
    let mut file = ChangedFile::empty("file".into(), FileStatus::Modified);
    file.additions = 1;
    assert_eq!(file_hue(&file, ChangeMode::Branch), Hue::Green);
    file.deletions = 1;
    assert_eq!(file_hue(&file, ChangeMode::Branch), Hue::Orange);
    file.additions = 0;
    assert_eq!(file_hue(&file, ChangeMode::Branch), Hue::Red);
}

#[test]
fn mod_branch_file_colors_follow_change_shape() {
    branch_file_colors_follow_change_shape();
}

#[test]
fn ui_branch_file_colors_follow_change_shape() {
    branch_file_colors_follow_change_shape();
}

fn informational_status_uses_a_success_label() {
    assert_eq!(status_label(StatusKind::Info), " Success: ");
    assert_eq!(status_hues(StatusKind::Info).1, Hue::Green);
}

#[test]
fn mod_informational_status_uses_a_success_label() {
    informational_status_uses_a_success_label();
}

#[test]
fn ui_informational_status_uses_a_success_label() {
    informational_status_uses_a_success_label();
}

fn error_status_uses_an_error_label() {
    assert_eq!(status_label(StatusKind::Error), " Error: ");
    assert_eq!(status_hues(StatusKind::Error).1, Hue::Red);
}

#[test]
fn mod_error_status_uses_an_error_label() {
    error_status_uses_an_error_label();
}

#[test]
fn ui_error_status_uses_an_error_label() {
    error_status_uses_an_error_label();
}

#[test]
fn uncommitted_files_are_colored_by_status() {
    let file = ChangedFile::empty("f".into(), FileStatus::Conflicted);
    assert_eq!(file_hue(&file, ChangeMode::Uncommitted), Hue::LightRed);
    let file = ChangedFile::empty("f".into(), FileStatus::Renamed);
    assert_eq!(file_hue(&file, ChangeMode::Uncommitted), Hue::Yellow);
    let file = ChangedFile::empty("f".into(), FileStatus::Untracked);
    assert_eq!(file_hue(&file, ChangeMode::Uncommitted), Hue::Green);
    assert_eq!(file_hue(&file, ChangeMode::Branch), Hue::Gray);
}

#[test]
fn staged_lines_use_lighter_colors() {
    assert_eq!(line_hues(DiffRowKind::Modified, ChangeMode::Uncommitted, HunkKind::Staged), (Hue::LightRed, Hue::LightGreen));
    assert_eq!(line_hues(DiffRowKind::Modified, ChangeMode::Branch, HunkKind::Staged), (Hue::Red, Hue::Green));
    assert_eq!(line_hues(DiffRowKind::Added, ChangeMode::Uncommitted, HunkKind::Unstaged), (Hue::Plain, Hue::Green));
    assert_eq!(line_hues(DiffRowKind::Context, ChangeMode::Uncommitted, HunkKind::Staged), (Hue::Gray, Hue::Gray));
    assert_eq!(badge_hues(HunkKind::Combined), (Hue::White, Hue::Blue));
    assert_eq!(badge_hues(HunkKind::Untracked), (Hue::Black, Hue::Cyan));
}
