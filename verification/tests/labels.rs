use git_navigator::labels::{
    directory_name, file_title, line_number, navigation_shortcuts, panel_title, removal_notice,
    scrollbar_position, status_letter, title_count, worktree_title,
};
use git_navigator::navigation::Focus;
use git_navigator::model::FileStatus;

#[test]
fn searchable_panel_titles_include_the_active_filter() {
    assert_eq!(
        panel_title("Files (4/4)", "some-search-word", false),
        "Files (4/4) /some-search-word/"
    );
    assert_eq!(panel_title("Files (4)", "", false), "Files (4)");
    assert_eq!(panel_title("Files (4)", "", true), "Files (4) //");
}

#[test]
fn title_counts_show_the_total_while_filtered() {
    assert_eq!(title_count(2, 14, true), "2/14");
    assert_eq!(title_count(14, 14, false), "14");
    assert_eq!(title_count(0, 0, false), "0");
}

#[test]
fn status_letters_name_each_status() {
    assert_eq!(status_letter(FileStatus::Added), "A");
    assert_eq!(status_letter(FileStatus::Untracked), "?");
    assert_eq!(status_letter(FileStatus::Conflicted), "U");
}

#[test]
fn line_numbers_are_blank_when_missing() {
    assert_eq!(line_number(Some(42)), "42");
    assert_eq!(line_number(None), "");
}

#[test]
fn directory_names_are_the_last_component() {
    assert_eq!(directory_name("/repo/agent"), "agent");
    assert_eq!(directory_name("/repo/agent/"), "agent");
    assert_eq!(directory_name("/"), "/");
    assert_eq!(directory_name("/repo/.."), "/repo/..");
    assert_eq!(directory_name("a/."), "a");
}

#[test]
fn scrollbar_scales_the_offset_to_the_content() {
    assert_eq!(scrollbar_position(0, 100, 10), 0);
    assert_eq!(scrollbar_position(90, 100, 10), 99);
    assert_eq!(scrollbar_position(200, 100, 10), 99);
    assert_eq!(scrollbar_position(45, 100, 10), 49);
    assert_eq!(scrollbar_position(3, 5, 10), 0);
}

fn footer(focus: Focus, expanded: bool) -> String {
    navigation_shortcuts(focus, expanded)
        .iter()
        .map(|(key, action)| format!("{key} {action}"))
        .collect::<Vec<_>>()
        .join("  ")
}

fn expansion_shortcut_describes_the_next_action() {
    assert!(footer(Focus::Diff, false).contains("Space expand"));
    assert!(footer(Focus::Diff, true).contains("Space minimize"));
}

#[test]
fn mod_expansion_shortcut_describes_the_next_action() {
    expansion_shortcut_describes_the_next_action();
}

#[test]
fn ui_expansion_shortcut_describes_the_next_action() {
    expansion_shortcut_describes_the_next_action();
}

fn cleanup_shortcut_is_only_shown_for_worktree_focus() {
    let worktree_footer = footer(Focus::Worktrees, false);
    let files_footer = footer(Focus::Files, false);
    let diff_footer = footer(Focus::Diff, false);

    assert!(worktree_footer.contains("d clean worktree"));
    assert!(!files_footer.contains("d clean worktree"));
    assert!(!diff_footer.contains("d clean worktree"));
    assert!(!worktree_footer.contains("v view"));
    assert!(!worktree_footer.contains("s split/unified"));
    assert!(!worktree_footer.contains("w wrap"));
    assert!(!worktree_footer.contains("Enter fold"));
    assert!(!files_footer.contains("v view"));
    assert!(!files_footer.contains("s split/unified"));
    assert!(!files_footer.contains("w wrap"));
    assert!(!files_footer.contains("Enter fold"));
    assert!(diff_footer.contains("v view"));
    assert!(diff_footer.contains("s split/unified"));
    assert!(diff_footer.contains("w wrap"));
    assert!(diff_footer.contains("Enter fold"));
    assert!(!diff_footer.contains("wrap:on"));
    assert!(!diff_footer.contains("wrap:off"));
}

#[test]
fn mod_cleanup_shortcut_is_only_shown_for_worktree_focus() {
    cleanup_shortcut_is_only_shown_for_worktree_focus();
}

#[test]
fn ui_cleanup_shortcut_is_only_shown_for_worktree_focus() {
    cleanup_shortcut_is_only_shown_for_worktree_focus();
}

#[test]
fn list_titles_count_what_the_filter_shows() {
    assert_eq!(worktree_title(3, 3, "", false), "Worktrees (3)");
    assert_eq!(worktree_title(1, 3, "agent", false), "Worktrees (1/3) /agent/");
    assert_eq!(worktree_title(3, 3, "", true), "Worktrees (3) //");
    assert_eq!(file_title(2, 4, "", false), "Files (4)");
    assert_eq!(file_title(2, 4, "main", true), "Files (2/4) /main/");
}

#[test]
fn the_removal_prompt_names_what_goes() {
    assert!(removal_notice(true).0.contains("stale Git metadata"));
    assert_eq!(removal_notice(false).1, "The worktree directory will be deleted.");
}

#[test]
fn unavailable_worktrees_name_the_reason() {
    assert_eq!(
        git_navigator::labels::unavailable_message(Some("gitdir file points to non-existent location")),
        "Unavailable worktree: gitdir file points to non-existent location. Press d in the Worktrees pane to clean it up"
    );
    assert_eq!(
        git_navigator::labels::unavailable_message(Some("")),
        "Unavailable worktree: working directory does not exist. Press d in the Worktrees pane to clean it up"
    );
    assert_eq!(
        git_navigator::labels::unavailable_message(None),
        "Unavailable worktree: working directory does not exist. Press d in the Worktrees pane to clean it up"
    );
}
