use git_navigator::geometry::{
    content_width, display_text, effective_layout, expand_tabs, row_height, wrapped_line_count,
};
use git_navigator::model::{ChangedFile, DiffLayout, DiffRow, DiffRowKind, FileStatus};

fn one_sided_files_use_unified() {
    for status in [FileStatus::Added, FileStatus::Deleted, FileStatus::Untracked] {
        let file = ChangedFile::empty("file".into(), status);
        assert_eq!(effective_layout(&file, DiffLayout::Split), DiffLayout::Unified);
    }

    let modified = ChangedFile::empty("file".into(), FileStatus::Modified);
    assert_eq!(effective_layout(&modified, DiffLayout::Split), DiffLayout::Split);
}

#[test]
fn diff_geometry_one_sided_files_always_use_unified_layout() {
    one_sided_files_use_unified();
}

#[test]
fn ui_one_sided_files_always_use_unified_layout() {
    one_sided_files_use_unified();
}

#[test]
fn mod_one_sided_files_always_use_unified_layout() {
    one_sided_files_use_unified();
}

fn wraps_long_diff_lines_at_display_width() {
    assert_eq!(display_text(Some("abcdefghij"), true, 4), "abcd\nefgh\nij");
    assert_eq!(display_text(Some("abcdefghij"), false, 4), "abcdefghij");
    assert_eq!(display_text(Some("ab界cd"), true, 4), "ab界\ncd");
}

fn expands_tabs_to_four_column_stops() {
    assert_eq!(display_text(Some("\tvalue"), false, 80), "    value");
    assert_eq!(display_text(Some("ab\tvalue"), false, 80), "ab  value");
    assert_eq!(display_text(Some("abcd\tvalue"), false, 80), "abcd    value");
    assert_eq!(display_text(Some("\tabcdef"), true, 6), "    ab\ncdef");
}

#[test]
fn tab_stops_count_wide_characters_twice() {
    assert_eq!(expand_tabs("界\tx"), "界  x");
    assert_eq!(expand_tabs(""), "");
    assert_eq!(display_text(None, true, 4), "");
}

#[test]
fn content_width_leaves_room_for_borders_and_numbers() {
    assert_eq!(content_width(100, DiffLayout::Unified), 84);
    assert_eq!(content_width(100, DiffLayout::Split), 42);
    assert_eq!(content_width(10, DiffLayout::Split), 1);
    assert_eq!(content_width(17, DiffLayout::Split), 1);
}

#[test]
fn wrapped_lines_count_each_line_separately() {
    assert_eq!(wrapped_line_count("abcdefghij", 4), 3);
    assert_eq!(wrapped_line_count("ab\ncdefg", 4), 3);
    assert_eq!(wrapped_line_count("", 4), 1);
    assert_eq!(wrapped_line_count("abc", 0), 3);
}

#[test]
fn row_heights_follow_layout_and_wrapping() {
    let row = DiffRow {
        old_number: Some(1),
        new_number: Some(1),
        old_text: Some("abcdefghij".into()),
        new_text: Some("abc".into()),
        kind: DiffRowKind::Modified,
    };
    assert_eq!(row_height(&row, DiffLayout::Split, false, 4), 1);
    assert_eq!(row_height(&row, DiffLayout::Split, true, 4), 3);
    assert_eq!(row_height(&row, DiffLayout::Unified, true, 6), 4);
    let added = DiffRow {
        old_number: None,
        new_number: Some(1),
        old_text: None,
        new_text: Some("abcdefgh".into()),
        kind: DiffRowKind::Added,
    };
    assert_eq!(row_height(&added, DiffLayout::Unified, true, 6), 2);
}

#[test]
fn diff_geometry_wraps_long_diff_lines_at_display_width() {
    wraps_long_diff_lines_at_display_width();
}

#[test]
fn mod_wraps_long_diff_lines_at_display_width() {
    wraps_long_diff_lines_at_display_width();
}

#[test]
fn ui_wraps_long_diff_lines_at_display_width() {
    wraps_long_diff_lines_at_display_width();
}

#[test]
fn diff_geometry_expands_tabs_to_four_column_stops() {
    expands_tabs_to_four_column_stops();
}

#[test]
fn mod_expands_tabs_to_four_column_stops() {
    expands_tabs_to_four_column_stops();
}

#[test]
fn ui_expands_tabs_to_four_column_stops() {
    expands_tabs_to_four_column_stops();
}

fn unified_content_uses_the_available_width() {
    assert!(content_width(100, DiffLayout::Unified) > content_width(100, DiffLayout::Split));
}

#[test]
fn mod_unified_content_uses_the_available_width() {
    unified_content_uses_the_available_width();
}

#[test]
fn ui_unified_content_uses_the_available_width() {
    unified_content_uses_the_available_width();
}
