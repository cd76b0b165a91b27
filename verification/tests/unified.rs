use git_navigator::model::{ChangeMode, DiffRowKind, HunkKind};
use git_navigator::palette::{line_hues, Hue};
use git_navigator::unified::{number_column, prefixed_lines, unified_modified_lines};

fn unified_modified_rows_stack_deleted_before_added() {
    let lines = unified_modified_lines("before", "after");
    let (old_hue, new_hue) = line_hues(DiffRowKind::Modified, ChangeMode::Uncommitted, HunkKind::Unstaged);

    assert_eq!(lines.len(), 2);
    assert_eq!(lines[0], "- before");
    assert_eq!(lines[1], "+ after");
    assert_eq!(old_hue, Hue::Red);
    assert_eq!(new_hue, Hue::Green);
}

#[test]
fn mod_unified_modified_rows_stack_deleted_before_added() {
    unified_modified_rows_stack_deleted_before_added();
}

#[test]
fn ui_unified_modified_rows_stack_deleted_before_added() {
    unified_modified_rows_stack_deleted_before_added();
}

#[test]
fn wrapped_lines_continue_behind_a_blank_marker() {
    assert_eq!(prefixed_lines("+", "abcd\nef"), vec!["+ abcd", "  ef"]);
    assert_eq!(prefixed_lines("-", ""), vec!["- "]);
}

#[test]
fn number_columns_pad_to_the_row_height() {
    assert_eq!(number_column(Some(12), 0, 2, 1), vec!["12", "", ""]);
    assert_eq!(number_column(Some(7), 2, 1, 0), vec!["", "", "7"]);
    assert_eq!(number_column(None, 0, 0, 0), vec![""]);
}
