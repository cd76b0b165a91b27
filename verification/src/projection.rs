//! What the panels show, read off the navigator's state: whether the first
//! panel is shown, the rows each list shows, and where their selections
//! stand among those rows.
use vstd::prelude::*;

use crate::change_state::{file_at, ChangeState};
use crate::diff_rows::{holds_row, hunk_at_row, row_count};
use crate::files::filtered_rows;
use crate::history_marks::{place_in, place_of};
use crate::model::Worktree;
use crate::selection::{has_linked_worktrees, matching_worktrees, visible_worktree_indices};

verus! {

/// The rows and selections the panels are drawn with.
#[derive(Clone, Debug, PartialEq, Eq)]
pub struct PanelProjection {
    pub show_worktrees: bool,
    pub worktree_rows: Vec<usize>,
    pub file_rows: Vec<usize>,
    pub selected_worktree: Option<usize>,
    pub selected_file: Option<usize>,
    pub selected_hunk: Option<usize>,
}

/// The place of a selection among the shown rows.
pub open spec fn shown_place(rows: Seq<usize>, selected: Option<usize>) -> Option<usize> {
    match selected {
        Some(s) => place_of(rows, s as nat, rows.len() as int),
        None => None,
    }
}

/// The panels of the navigator: the first panel shows while a linked
/// worktree exists or the history is open; the lists show what their
/// filters keep; the selections are placed among the shown rows; the
/// selected hunk is the one that holds the selected Diff row of the selected
/// file.
pub fn panels(
    worktrees: &Vec<Worktree>,
    worktree_filter: &str,
    selected_worktree: Option<usize>,
    history_active: bool,
    changes: &ChangeState,
    file_filter: &str,
) -> (r: PanelProjection)
    ensures
        r.show_worktrees == ((exists|i: int| 0 <= i < worktrees@.len() && !worktrees@[i].is_main)
            || history_active),
        r.worktree_rows@ == matching_worktrees(worktrees@, worktree_filter@, worktrees@.len() as int),
        r.file_rows@ == filtered_rows(changes.file_tree@, changes.files@, file_filter@),
        r.selected_worktree == shown_place(r.worktree_rows@, selected_worktree),
        r.selected_file == shown_place(r.file_rows@, changes.file_list.selected),
        r.selected_hunk matches Some(k) ==> changes.selected_file_path matches Some(p) && file_at(
            changes.files@,
            p@,
            changes.files@.len() as int,
        ) matches Some(i) && changes.diff_list.selected matches Some(row) && holds_row(
            changes.files@[i as int]@.hunks,
            k as int,
            row as int,
        ),
        r.selected_hunk is None <==> !(changes.selected_file_path matches Some(p) && file_at(
            changes.files@,
            p@,
            changes.files@.len() as int,
        ) matches Some(i) && changes.diff_list.selected matches Some(row) && row < row_count(
            changes.files@[i as int]@.hunks,
        )),
{
    let worktree_rows = visible_worktree_indices(worktrees, worktree_filter);
    let file_rows = changes.visible_file_rows(file_filter);
    let selected_worktree_place = match selected_worktree {
        Some(s) => place_in(&worktree_rows, s),
        None => None,
    };
    let selected_file_place = match changes.file_list.selected {
        Some(s) => place_in(&file_rows, s),
        None => None,
    };
    let selected_hunk = match changes.selected_file() {
        Some(file) => match changes.diff_list.selected {
            Some(row) => hunk_at_row(file, row),
            None => None,
        },
        None => None,
    };
    PanelProjection {
        show_worktrees: has_linked_worktrees(worktrees) || history_active,
        worktree_rows,
        file_rows,
        selected_worktree: selected_worktree_place,
        selected_file: selected_file_place,
        selected_hunk,
    }
}

} // verus!
