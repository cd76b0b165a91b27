use git_navigator::history::BranchTips;
use git_navigator::history_marks::{
    base_node, commit_is_in_branch_diff, graph_cells, list_index, moved_history_entry,
    selection_entry, wip_is_in_branch_diff, GraphCell,
};
use git_navigator::history_rows::{display_rows_for, selectable_indices};
use git_navigator::model::{ChangeMode, Commit, HistorySelection};
use git_navigator::palette::Hue;
use git_navigator::pointer::{content_line, Area, Spot};
use git_navigator::selection::commit_selection;

fn commit(hash: &str, graph: &[&str]) -> Commit {
    Commit {
        hash: hash.into(),
        parents: vec![],
        short_hash: hash.into(),
        subject: hash.into(),
        graph: graph.iter().map(|line| line.to_string()).collect(),
    }
}

fn wip_is_the_first_history_entry_and_uses_live_changes() {
    let commits = vec![Commit {
        hash: "1234567890abcdef".into(),
        parents: vec![],
        short_hash: "12345678".into(),
        subject: "commit".into(),
        graph: vec!["●".into()],
    }];
    let selection = Some(HistorySelection::Commit { hash: "1234567890abcdef".into() });
    let rows = display_rows_for(&commits, &BranchTips { tips: vec![] }, None);
    let entries = selectable_indices(&rows);
    let current = selection_entry(selection.as_ref(), &commits);

    let next = moved_history_entry(&entries, current, -1).expect("the move changes the selection");
    let selection = commit_selection(next, &commits);

    assert_eq!(selection, Some(HistorySelection::Wip));
    assert!(!matches!(selection, Some(HistorySelection::Commit { .. })));
}

#[test]
fn app_wip_is_the_first_history_entry_and_uses_live_changes() {
    wip_is_the_first_history_entry_and_uses_live_changes();
}

#[test]
fn mod_wip_is_the_first_history_entry_and_uses_live_changes() {
    wip_is_the_first_history_entry_and_uses_live_changes();
}

#[test]
fn history_clicks_skip_graph_continuation_rows() {
    let commits = vec![commit("first", &["●"]), commit("second", &["│ ●", "│╱"])];
    let rows = display_rows_for(&commits, &BranchTips { tips: vec![] }, None);
    let area = Area { x: 0, y: 0, width: 50, height: 10 };
    let entry_at = |y: u16| {
        content_line(Spot { x: 1, y }, area).and_then(|line| list_index(&rows, line, 0))
    };
    assert_eq!(entry_at(1), Some(0));
    assert_eq!(entry_at(2), Some(1));
    assert_eq!(entry_at(3), None);
    assert_eq!(entry_at(4), Some(2));
    assert_eq!(entry_at(6), None);
    assert_eq!(entry_at(0), None);
}

#[test]
fn moving_stays_put_at_the_ends_of_the_history() {
    let commits = vec![commit("a", &["●"]), commit("b", &["●"])];
    let rows = display_rows_for(&commits, &BranchTips { tips: vec![] }, None);
    let entries = selectable_indices(&rows);
    assert_eq!(entries, vec![0, 1, 2]);
    assert_eq!(moved_history_entry(&entries, Some(0), -1), None);
    assert_eq!(moved_history_entry(&entries, Some(2), 5), None);
    assert_eq!(moved_history_entry(&entries, Some(0), 1), Some(1));
    assert_eq!(moved_history_entry(&entries, None, 1), Some(1));
    assert_eq!(moved_history_entry(&vec![], Some(0), 1), None);
    let selected = Some(HistorySelection::Commit { hash: "b".into() });
    assert_eq!(selection_entry(selected.as_ref(), &commits), Some(2));
    let gone = Some(HistorySelection::Commit { hash: "z".into() });
    assert_eq!(selection_entry(gone.as_ref(), &commits), None);
}

#[test]
fn branch_history_highlights_only_commit_nodes() {
    let (cells, padding) = graph_cells("│╱ ●", true, None, Some(Hue::Red));

    assert_eq!(cells[0].tone, Hue::DarkGray);
    assert_eq!(cells[1].tone, Hue::DarkGray);
    assert_eq!(cells[2].tone, Hue::DarkGray);
    assert_eq!(cells[3].tone, Hue::Magenta);
    assert_eq!(padding, 0);
}

#[test]
fn markers_replace_the_node_and_take_their_tone() {
    let (cells, padding) = graph_cells("●", false, Some('■'), Some(Hue::Red));
    assert_eq!(cells, vec![GraphCell { symbol: '■', tone: Hue::Red, node: true }]);
    assert_eq!(padding, 3);
    let (cells, _) = graph_cells("●", false, None, Some(Hue::Red));
    assert_eq!(cells[0], GraphCell { symbol: '●', tone: Hue::Cyan, node: true });
}

#[test]
fn branch_history_marks_commits_between_selection_and_base() {
    let range = vec!["middle".to_string()];
    assert!(!commit_is_in_branch_diff(ChangeMode::Branch, &range, "head"));
    assert!(commit_is_in_branch_diff(ChangeMode::Branch, &range, "middle"));
    assert!(!commit_is_in_branch_diff(ChangeMode::Branch, &range, "base"));
    assert!(!commit_is_in_branch_diff(ChangeMode::Branch, &range, "older"));
    assert!(!commit_is_in_branch_diff(ChangeMode::Uncommitted, &range, "middle"));

    let wip = HistorySelection::Wip;
    assert!(wip_is_in_branch_diff(ChangeMode::Branch, Some(&wip), &range));
    assert!(!wip_is_in_branch_diff(ChangeMode::Branch, Some(&wip), &vec![]));
    assert!(!wip_is_in_branch_diff(ChangeMode::Uncommitted, Some(&wip), &range));
}

#[test]
fn base_commits_get_square_nodes() {
    assert_eq!(base_node(Some("a"), Some("b"), "a"), Some('■'));
    assert_eq!(base_node(Some("a"), Some("b"), "b"), Some('□'));
    assert_eq!(base_node(None, None, "b"), None);
}

#[test]
fn the_list_highlights_the_row_of_the_selected_entry() {
    let commits = vec![commit("a", &["●"]), commit("b", &["│ ●", "│╱"])];
    let rows = display_rows_for(&commits, &BranchTips { tips: vec![] }, None);
    assert_eq!(git_navigator::history_marks::row_of_entry(&rows, 0), Some(0));
    assert_eq!(git_navigator::history_marks::row_of_entry(&rows, 2), Some(3));
    assert_eq!(git_navigator::history_marks::row_of_entry(&rows, 3), None);
}
