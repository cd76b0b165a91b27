use git_navigator::model::{DiffLayout, HistorySelection};
use git_navigator::navigation::{
    initial_panel, initial_view, Focus, PanelLayout, SearchState, StatusKind, StatusMessage, ViewState,
    WorktreePanel,
};

fn test_view() -> ViewState {
    ViewState {
        diff_layout: DiffLayout::Split,
        line_wrap: false,
        expanded: false,
        initial_layout_applied: true,
        panel_layout: PanelLayout::Columns,
        focus: Focus::Worktrees,
        show_help: false,
        delete_confirmation: None,
        status: None,
        worktree_filter: String::new(),
        file_filter: String::new(),
        search: None,
        follow_changes: false,
    }
}

fn narrow_initial_layout_starts_expanded_once() {
    let mut view = test_view();
    view.initial_layout_applied = false;

    view.apply_initial_layout(119, 120);
    assert!(view.expanded);
    assert_eq!(view.diff_layout, DiffLayout::Unified);
    assert!(view.initial_layout_applied);

    view.expanded = false;
    view.apply_initial_layout(80, 120);
    assert!(!view.expanded, "manual minimize must remain authoritative");
}

#[test]
fn app_narrow_initial_layout_starts_expanded_once() {
    narrow_initial_layout_starts_expanded_once();
}

#[test]
fn mod_narrow_initial_layout_starts_expanded_once() {
    narrow_initial_layout_starts_expanded_once();
}

fn wide_initial_layout_starts_minimized() {
    let mut view = test_view();
    view.initial_layout_applied = false;
    view.expanded = true;

    view.apply_initial_layout(120, 120);
    assert!(!view.expanded);
    assert_eq!(view.diff_layout, DiffLayout::Split);
}

#[test]
fn app_wide_initial_layout_starts_minimized() {
    wide_initial_layout_starts_minimized();
}

#[test]
fn mod_wide_initial_layout_starts_minimized() {
    wide_initial_layout_starts_minimized();
}

#[test]
fn follow_is_off_by_default_and_toggles_clearing_the_status() {
    let mut view = test_view();
    assert!(!view.follow_changes);
    view.status = Some(StatusMessage { kind: StatusKind::Info, text: "done".into() });
    view.toggle_follow();
    assert!(view.follow_changes);
    assert!(view.status.is_none());
    view.toggle_follow();
    assert!(!view.follow_changes);
}

#[test]
fn layout_cycling_returns_to_the_multi_panel_view() {
    let mut view = test_view();
    view.expanded = true;
    view.cycle_layout();
    assert!(!view.expanded);
    assert_eq!(view.panel_layout, PanelLayout::SidebarLeft);
    view.toggle_expanded();
    view.toggle_wrap();
    view.toggle_diff_layout();
    assert!(view.expanded);
    assert!(view.line_wrap);
    assert_eq!(view.diff_layout, DiffLayout::Unified);
    assert!(!view.modal_open());
    view.show_help = true;
    assert!(view.modal_open());
}

#[test]
fn a_search_starts_with_the_panel_filter_and_edits_it() {
    let mut view = test_view();
    view.worktree_filter = "ag".into();
    view.begin_search();
    assert_eq!(view.search, Some(SearchState { focus: Focus::Worktrees, query: "ag".into() }));

    assert_eq!(view.type_search_char('e'), Some((Focus::Worktrees, "age".to_string())));
    assert_eq!(view.worktree_filter, "age");
    assert_eq!(view.search_query(Focus::Worktrees), "age");
    assert_eq!(view.delete_search_char(), Some((Focus::Worktrees, "ag".to_string())));
    assert_eq!(view.worktree_filter, "ag");
    assert_eq!(view.delete_search_char(), Some((Focus::Worktrees, "a".to_string())));
    assert_eq!(view.delete_search_char(), Some((Focus::Worktrees, String::new())));
    assert_eq!(view.delete_search_char(), Some((Focus::Worktrees, String::new())));
    assert_eq!(view.file_filter, "");
}

#[test]
fn typing_then_deleting_gives_the_search_back() {
    let mut view = test_view();
    view.focus = Focus::Files;
    view.file_filter = "main".into();
    view.worktree_filter = "keep".into();
    view.begin_search();
    view.type_search_char('x');
    view.delete_search_char();
    assert_eq!(view.search, Some(SearchState { focus: Focus::Files, query: "main".into() }));
    assert_eq!(view.file_filter, "main");
    assert_eq!(view.worktree_filter, "keep");
}

#[test]
fn escape_clears_the_searched_filter_and_arrows_switch_panels() {
    let mut view = test_view();
    view.worktree_filter = "n".into();
    view.begin_search();
    assert_eq!(view.clear_search(), Some(Focus::Worktrees));
    assert!(view.worktree_filter.is_empty());
    assert!(view.search.is_none());
    assert_eq!(view.clear_search(), None);

    view.file_filter = "rs".into();
    view.begin_search();
    assert_eq!(view.switch_search_panel(true), Some(Focus::Files));
    assert_eq!(view.focus, Focus::Files);
    assert!(view.search.is_none());
    assert_eq!(view.file_filter, "rs");
    view.begin_search();
    assert_eq!(view.switch_search_panel(true), Some(Focus::Files));
    view.begin_search();
    assert_eq!(view.switch_search_panel(false), Some(Focus::Worktrees));
    assert_eq!(view.switch_search_panel(false), None);
}

#[test]
fn the_diff_search_keeps_no_filter() {
    let mut view = test_view();
    view.focus = Focus::Diff;
    view.begin_search();
    assert_eq!(view.type_search_char('e'), Some((Focus::Diff, "e".to_string())));
    assert_eq!(view.search_query(Focus::Diff), "");
    assert!(view.worktree_filter.is_empty() && view.file_filter.is_empty());
}

#[test]
fn the_navigator_starts_on_files_with_the_history_when_nothing_is_linked() {
    let (view, selection) = initial_view(false);
    assert_eq!(selection, Some(HistorySelection::Wip));
    assert_eq!(initial_panel(false), WorktreePanel::History);
    assert_eq!(view.focus, Focus::Files);
    assert_eq!(view.panel_layout, PanelLayout::SidebarLeft);
    assert_eq!(view.diff_layout, DiffLayout::Split);
    assert!(!view.expanded && !view.line_wrap && !view.initial_layout_applied);
    assert!(!view.show_help && !view.follow_changes);
    assert!(view.search.is_none() && view.status.is_none() && view.delete_confirmation.is_none());
    assert!(view.worktree_filter.is_empty() && view.file_filter.is_empty());
    let (_, linked) = initial_view(true);
    assert_eq!(linked, None);
    assert_eq!(initial_panel(true), WorktreePanel::Worktrees);
}
