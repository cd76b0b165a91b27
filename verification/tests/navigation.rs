use git_navigator::model::{Commit, HistorySelection, Worktree};
use git_navigator::navigation::{
    fuzzy_match, history_selection_after_refresh, moved_selection, selection_after_refresh,
    worktree_index, Focus, PanelLayout,
};

fn commit(hash: &str, subject: &str) -> Commit {
    Commit {
        hash: hash.into(),
        parents: vec![],
        short_hash: hash.into(),
        subject: subject.into(),
        graph: vec!["●".into()],
    }
}

fn worktree(path: &str, branch: &str) -> Worktree {
    Worktree {
        path: path.into(),
        branch: branch.into(),
        head: "12345678".into(),
        dirty: false,
        is_current: false,
        is_main: false,
        available: true,
        prunable_reason: None,
        locked_reason: None,
    }
}

#[test]
fn app_focus_navigation_handles_two_and_three_panel_layouts() {
    assert_eq!(Focus::Diff.left(false), Focus::Files);
    assert_eq!(Focus::Files.left(false), Focus::Files);
    assert_eq!(Focus::Files.right(false), Focus::Diff);

    assert_eq!(Focus::Diff.left(true), Focus::Files);
    assert_eq!(Focus::Files.left(true), Focus::Worktrees);
    assert_eq!(Focus::Worktrees.right(true), Focus::Files);
    assert_eq!(Focus::Files.right(true), Focus::Diff);
}

#[test]
fn mod_focus_navigation_handles_two_and_three_panel_layouts() {
    assert_eq!(Focus::Diff.left(false), Focus::Files);
    assert_eq!(Focus::Files.left(false), Focus::Files);
    assert_eq!(Focus::Files.right(false), Focus::Diff);

    assert_eq!(Focus::Diff.left(true), Focus::Files);
    assert_eq!(Focus::Files.left(true), Focus::Worktrees);
    assert_eq!(Focus::Worktrees.right(true), Focus::Files);
    assert_eq!(Focus::Files.right(true), Focus::Diff);
}

#[test]
fn focus_never_reaches_a_hidden_first_panel() {
    for focus in [Focus::Worktrees, Focus::Files, Focus::Diff] {
        assert_ne!(focus.left(false), Focus::Worktrees);
        assert_ne!(focus.right(false), Focus::Worktrees);
    }
    assert_eq!(Focus::Worktrees.left(true), Focus::Worktrees);
    assert_eq!(Focus::Diff.right(true), Focus::Diff);
    assert_eq!(Focus::Worktrees.right(false), Focus::Diff);
}

#[test]
fn app_selection_stops_at_list_boundaries() {
    assert_eq!(moved_selection(Some(0), 3, -1), Some(0));
    assert_eq!(moved_selection(Some(0), 3, 1), Some(1));
    assert_eq!(moved_selection(Some(2), 3, 1), Some(2));
    assert_eq!(moved_selection(None, 0, 1), None);
}

#[test]
fn mod_selection_stops_at_list_boundaries() {
    assert_eq!(moved_selection(Some(0), 3, -1), Some(0));
    assert_eq!(moved_selection(Some(0), 3, 1), Some(1));
    assert_eq!(moved_selection(Some(2), 3, 1), Some(2));
    assert_eq!(moved_selection(None, 0, 1), None);
}

#[test]
fn selection_saturates_at_the_extremes_of_the_offset_range() {
    assert_eq!(moved_selection(None, 5, 2), Some(2));
    assert_eq!(moved_selection(Some(3), 5, isize::MIN), Some(0));
    assert_eq!(moved_selection(Some(3), 5, isize::MAX), Some(4));
    assert_eq!(moved_selection(Some(usize::MAX), 5, 1), Some(4));
    assert_eq!(moved_selection(Some(9), 5, 0), Some(4));
    assert_eq!(moved_selection(Some(3), 5, -10), Some(0));
}

#[test]
fn app_fuzzy_matching_is_case_insensitive_subsequence_matching() {
    assert!(fuzzy_match("gm", "git-navigator-demo"));
    assert!(fuzzy_match("NAV", "git-navigator-demo"));
    assert!(!fuzzy_match("zz", "git-navigator-demo"));
    assert!(fuzzy_match("", "anything"));
}

#[test]
fn mod_fuzzy_matching_is_case_insensitive_subsequence_matching() {
    assert!(fuzzy_match("gm", "git-navigator-demo"));
    assert!(fuzzy_match("NAV", "git-navigator-demo"));
    assert!(!fuzzy_match("zz", "git-navigator-demo"));
    assert!(fuzzy_match("", "anything"));
}

#[test]
fn fuzzy_matching_keeps_the_order_of_the_query() {
    assert!(fuzzy_match("ab", "a-b"));
    assert!(!fuzzy_match("ba", "a-b"));
    assert!(!fuzzy_match("abc", "ab"));
    assert!(fuzzy_match("ÄB", "xäyb"));
    assert!(fuzzy_match("same", "same"));
}

#[test]
fn app_panel_layout_cycles_through_all_layouts() {
    assert_eq!(PanelLayout::Columns.toggle(), PanelLayout::SidebarLeft);
    assert_eq!(PanelLayout::SidebarLeft.toggle(), PanelLayout::SidebarTop);
    assert_eq!(PanelLayout::SidebarTop.toggle(), PanelLayout::Columns);
}

#[test]
fn mod_panel_layout_cycles_through_all_layouts() {
    assert_eq!(PanelLayout::Columns.toggle(), PanelLayout::SidebarLeft);
    assert_eq!(PanelLayout::SidebarLeft.toggle(), PanelLayout::SidebarTop);
    assert_eq!(PanelLayout::SidebarTop.toggle(), PanelLayout::Columns);
}

#[test]
fn three_layout_toggles_return_to_the_start() {
    for layout in [PanelLayout::Columns, PanelLayout::SidebarLeft, PanelLayout::SidebarTop] {
        assert_eq!(layout.toggle().toggle().toggle(), layout);
        assert_ne!(layout.toggle(), layout);
    }
}

#[test]
fn app_history_refresh_preserves_wip_or_selected_commit_hash() {
    let commits = vec![commit("new", "new commit"), commit("selected", "selected commit")];

    assert_eq!(history_selection_after_refresh(true, None, &commits), Some(0));
    assert_eq!(
        history_selection_after_refresh(false, Some("selected"), &commits),
        Some(2)
    );
    assert_eq!(
        history_selection_after_refresh(false, Some("rewritten"), &commits),
        Some(0)
    );
}

#[test]
fn mod_history_refresh_preserves_wip_or_selected_commit_hash() {
    let commits = vec![commit("new", "new commit"), commit("selected", "selected commit")];

    assert_eq!(
        selection_after_refresh(Some(&HistorySelection::Wip), &commits),
        Some(HistorySelection::Wip)
    );
    assert_eq!(
        selection_after_refresh(
            Some(&HistorySelection::Commit {
                hash: "selected".into(),
            }),
            &commits,
        ),
        Some(HistorySelection::Commit {
            hash: "selected".into(),
        })
    );
    assert_eq!(
        selection_after_refresh(
            Some(&HistorySelection::Commit {
                hash: "rewritten".into(),
            }),
            &commits,
        ),
        Some(HistorySelection::Wip)
    );
}

#[test]
fn refresh_without_a_selection_selects_wip() {
    let commits = vec![commit("only", "only commit")];
    assert_eq!(selection_after_refresh(None, &commits), Some(HistorySelection::Wip));
    assert_eq!(history_selection_after_refresh(false, None, &commits), Some(0));
    assert_eq!(history_selection_after_refresh(false, Some("only"), &commits), Some(1));
}

#[test]
fn finds_the_first_worktree_at_a_path() {
    let worktrees = vec![
        worktree("/repo", "main"),
        worktree("/repo/agent", "agent"),
        worktree("/repo/agent", "duplicate"),
    ];
    assert_eq!(worktree_index(&worktrees, "/repo/agent"), Some(1));
    assert_eq!(worktree_index(&worktrees, "/repo"), Some(0));
    assert_eq!(worktree_index(&worktrees, "/elsewhere"), None);
}
