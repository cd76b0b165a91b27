//! The changed files of the selected worktree or commit, their folder tree,
//! and what the Files and Diff panels have selected.
use vstd::prelude::*;

use crate::diff_rows::{
    collapsed_ids, flipped, full_row_count, holds_row, hunk_at_row, ids_view, DiffPosition, latest_change, latest_change_row,
    lemma_full_count_restored, lemma_row_count_within_full, restore_collapsed, restore_scroll_offset,
    restored_hunks, restored_offset, row_count, row_for_position, row_of_position, rows_before,
    rows_fit, toggle_hunk_at,
};
use crate::files::{filtered_rows, filtered_tree, first_file_row, is_file_row};
use crate::model::{ChangeMode, ChangedFile, DiffView, FileTreeRow, FileView};
use crate::files::{moved_file_row, moved_visible_file_selection, rows_in_tree};
use crate::navigation::{moved_position, moved_selection};
use crate::search::{
    diff_match_rows, diff_matches, match_place, nats, next_match, next_search_match,
    search_match_position,
};
use crate::selection::{file_row_choice, file_row_pick};
use crate::text::{chars_eq, chars_of};
use crate::tree::{build_tree, rows_map, strictly_sorted, tree_nodes};

verus! {

/// Row numbers as `usize`.
pub open spec fn usize_rows(rows: Seq<nat>) -> Seq<usize> {
    rows.map_values(|x: nat| x as usize)
}

proof fn lemma_usize_rows_of_nats(v: Seq<usize>)
    ensures
        usize_rows(nats(v)) == v,
{
    assert(usize_rows(nats(v)) =~= v);
}

/// The selection and scroll offset of a list or table on screen.
#[derive(Clone, Copy, Debug, Default, PartialEq, Eq, Structural)]
pub struct ListSelection {
    pub selected: Option<usize>,
    pub offset: usize,
}

impl ListSelection {
    /// Selects an item, or nothing; selecting nothing also scrolls back to
    /// the top.
    pub fn select(&mut self, index: Option<usize>)
        ensures
            final(self).selected == index,
            final(self).offset == if index is None {
                0
            } else {
                old(self).offset
            },
    {
        self.selected = index;
        if index.is_none() {
            self.offset = 0;
        }
    }
}

/// The changes shown in the Files and Diff panels.
pub struct ChangeState {
    pub mode: ChangeMode,
    pub diff_view: DiffView,
    pub files: Vec<ChangedFile>,
    pub file_tree: Vec<FileTreeRow>,
    pub file_list: ListSelection,
    pub diff_list: ListSelection,
    pub selected_file_path: Option<String>,
}

/// The first of the first `n` files with a path.
pub open spec fn file_at(files: Seq<ChangedFile>, path: Seq<char>, n: int) -> Option<nat>
    decreases n,
{
    if n <= 0 {
        None
    } else {
        match file_at(files, path, n - 1) {
            Some(i) => Some(i),
            None => if files[n - 1].path@ == path {
                Some((n - 1) as nat)
            } else {
                None
            },
        }
    }
}

/// The first of the first `n` tree rows with a path.
pub open spec fn row_at_path(tree: Seq<FileTreeRow>, path: Seq<char>, n: int) -> Option<nat>
    decreases n,
{
    if n <= 0 {
        None
    } else {
        match row_at_path(tree, path, n - 1) {
            Some(i) => Some(i),
            None => if tree[n - 1].path@ == path {
                Some((n - 1) as nat)
            } else {
                None
            },
        }
    }
}

proof fn lemma_file_at_stays(files: Seq<ChangedFile>, path: Seq<char>, m: int, n: int)
    requires
        0 <= m <= n,
        file_at(files, path, m) is Some,
    ensures
        file_at(files, path, n) == file_at(files, path, m),
    decreases n - m,
{
    if m < n {
        lemma_file_at_stays(files, path, m, n - 1);
    }
}

proof fn lemma_file_at_below(files: Seq<ChangedFile>, path: Seq<char>, n: int)
    ensures
        file_at(files, path, n) matches Some(i) ==> i < n,
    decreases n,
{
    if n > 0 {
        lemma_file_at_below(files, path, n - 1);
    }
}

proof fn lemma_file_at_same_paths(a: Seq<ChangedFile>, b: Seq<ChangedFile>, path: Seq<char>, n: int)
    requires
        a.len() == b.len(),
        n <= a.len(),
        forall|j: int| 0 <= j < a.len() ==> a[j].path@ == b[j].path@,
    ensures
        file_at(a, path, n) == file_at(b, path, n),
    decreases n,
{
    if n > 0 {
        lemma_file_at_same_paths(a, b, path, n - 1);
    }
}

proof fn lemma_row_at_path_stays(tree: Seq<FileTreeRow>, path: Seq<char>, m: int, n: int)
    requires
        0 <= m <= n,
        row_at_path(tree, path, m) is Some,
    ensures
        row_at_path(tree, path, n) == row_at_path(tree, path, m),
    decreases n - m,
{
    if m < n {
        lemma_row_at_path_stays(tree, path, m, n - 1);
    }
}

/// The position of the first file with a path.
pub fn file_index_in(files: &Vec<ChangedFile>, path: &str) -> (r: Option<usize>)
    ensures
        r matches Some(i) ==> file_at(files@, path@, files@.len() as int) == Some(i as nat) && i
            < files@.len(),
        r is None ==> file_at(files@, path@, files@.len() as int) is None,
{
    let target = chars_of(path);
    let mut i: usize = 0;
    while i < files.len()
        invariant
            i <= files@.len(),
            target@ == path@,
            file_at(files@, path@, i as int) is None,
        decreases files.len() - i,
    {
        let candidate = chars_of(files[i].path.as_str());
        if chars_eq(&candidate, &target) {
            proof {
                lemma_file_at_stays(files@, path@, i as int + 1, files@.len() as int);
            }
            return Some(i);
        }
        i += 1;
    }
    None
}

/// The position of the first tree row with a path.
pub fn tree_index_in(tree: &Vec<FileTreeRow>, path: &str) -> (r: Option<usize>)
    ensures
        r matches Some(i) ==> row_at_path(tree@, path@, tree@.len() as int) == Some(i as nat) && i
            < tree@.len(),
        r is None ==> row_at_path(tree@, path@, tree@.len() as int) is None,
{
    let target = chars_of(path);
    let mut i: usize = 0;
    while i < tree.len()
        invariant
            i <= tree@.len(),
            target@ == path@,
            row_at_path(tree@, path@, i as int) is None,
        decreases tree.len() - i,
    {
        let candidate = chars_of(tree[i].path.as_str());
        if chars_eq(&candidate, &target) {
            proof {
                lemma_row_at_path_stays(tree@, path@, i as int + 1, tree@.len() as int);
            }
            return Some(i);
        }
        i += 1;
    }
    None
}

impl ChangeState {
    /// No files yet, nothing selected.
    pub fn new(mode: ChangeMode, diff_view: DiffView) -> (r: ChangeState)
        ensures
            r.mode == mode,
            r.diff_view == diff_view,
            r.files@.len() == 0,
            r.file_tree@.len() == 0,
            r.file_list == (ListSelection { selected: None, offset: 0 }),
            r.diff_list == (ListSelection { selected: None, offset: 0 }),
            r.selected_file_path is None,
    {
        ChangeState {
            mode,
            diff_view,
            files: Vec::new(),
            file_tree: Vec::new(),
            file_list: ListSelection { selected: None, offset: 0 },
            diff_list: ListSelection { selected: None, offset: 0 },
            selected_file_path: None,
        }
    }

    /// Shows a new list of files: their tree is rebuilt; the selections are
    /// kept as they are.
    pub fn install_files(&mut self, files: Vec<ChangedFile>)
        ensures
            final(self).files@ == files@,
            strictly_sorted(final(self).file_tree@),
            rows_map(final(self).file_tree@) == tree_nodes(files@),
            final(self).mode == old(self).mode,
            final(self).diff_view == old(self).diff_view,
            final(self).file_list == old(self).file_list,
            final(self).diff_list == old(self).diff_list,
            final(self).selected_file_path == old(self).selected_file_path,
    {
        let tree = build_tree(&files);
        self.files = files;
        self.file_tree = tree;
    }

    /// Shows no files, selects nothing and scrolls both lists to the top.
    pub fn clear_files(&mut self)
        ensures
            final(self).files@.len() == 0,
            final(self).file_tree@.len() == 0,
            final(self).selected_file_path is None,
            final(self).file_list == (ListSelection { selected: None, offset: 0 }),
            final(self).diff_list == (ListSelection { selected: None, offset: 0 }),
            final(self).mode == old(self).mode,
            final(self).diff_view == old(self).diff_view,
    {
        self.files = Vec::new();
        self.file_tree = Vec::new();
        self.selected_file_path = None;
        self.file_list.select(None);
        self.diff_list.select(None);
    }

    /// The position of the first file with a path.
    pub fn file_index(&self, path: &str) -> (r: Option<usize>)
        ensures
            r matches Some(i) ==> file_at(self.files@, path@, self.files@.len() as int) == Some(i as nat)
                && i < self.files@.len(),
            r is None ==> file_at(self.files@, path@, self.files@.len() as int) is None,
    {
        file_index_in(&self.files, path)
    }

    /// The tree row of a path.
    pub fn tree_index(&self, path: &str) -> (r: Option<usize>)
        ensures
            r matches Some(i) ==> row_at_path(self.file_tree@, path@, self.file_tree@.len() as int) == Some(
                i as nat,
            ) && i < self.file_tree@.len(),
            r is None ==> row_at_path(self.file_tree@, path@, self.file_tree@.len() as int) is None,
    {
        tree_index_in(&self.file_tree, path)
    }

    /// The file a tree row shows: the first file with the row's path; none
    /// past the tree's end.
    pub fn file_for_tree_row(&self, row: usize) -> (r: Option<&ChangedFile>)
        ensures
            row >= self.file_tree@.len() ==> r is None,
            row < self.file_tree@.len() ==> match file_at(
                self.files@,
                self.file_tree@[row as int].path@,
                self.files@.len() as int,
            ) {
                Some(i) => r == Some(&self.files@[i as int]),
                None => r is None,
            },
    {
        if row >= self.file_tree.len() {
            return None;
        }
        match self.file_index(self.file_tree[row].path.as_str()) {
            Some(i) => Some(&self.files[i]),
            None => None,
        }
    }

    /// The position of the selected file among the files.
    pub fn selected_file_index(&self) -> (r: Option<usize>)
        ensures
            match self.selected_file_path {
                None => r is None,
                Some(p) => match file_at(self.files@, p@, self.files@.len() as int) {
                    Some(i) => r == Some(i as usize) && i < self.files@.len(),
                    None => r is None,
                },
            },
    {
        match &self.selected_file_path {
            None => None,
            Some(p) => self.file_index(p.as_str()),
        }
    }

    /// The selected file.
    pub fn selected_file(&self) -> (r: Option<&ChangedFile>)
        ensures
            match self.selected_file_path {
                None => r is None,
                Some(p) => match file_at(self.files@, p@, self.files@.len() as int) {
                    Some(i) => r == Some(&self.files@[i as int]),
                    None => r is None,
                },
            },
    {
        match &self.selected_file_path {
            None => None,
            Some(p) => match self.file_index(p.as_str()) {
                Some(i) => Some(&self.files[i]),
                None => None,
            },
        }
    }

    /// Selects a file by path: the Files panel selects the path's tree row,
    /// none (and scrolls to the top) when the tree has no such row or no path
    /// is given.
    pub fn select_file_path(&mut self, path: Option<String>)
        ensures
            final(self).selected_file_path == path,
            final(self).file_list.selected == match path {
                Some(p) => match row_at_path(old(self).file_tree@, p@, old(self).file_tree@.len() as int) {
                    Some(i) => Some(i as usize),
                    None => None,
                },
                None => None,
            },
            final(self).file_list.offset == if final(self).file_list.selected is None {
                0
            } else {
                old(self).file_list.offset
            },
            final(self).files == old(self).files,
            final(self).file_tree == old(self).file_tree,
            final(self).diff_list == old(self).diff_list,
            final(self).mode == old(self).mode,
            final(self).diff_view == old(self).diff_view,
    {
        let row = match &path {
            Some(p) => self.tree_index(p.as_str()),
            None => None,
        };
        self.selected_file_path = path;
        self.file_list.select(row);
    }

    /// The path to select after loading files: the preferred one while some
    /// file has it, else the path of the first file row of the tree; none
    /// without files.
    pub fn file_to_select(&self, preferred: Option<&str>) -> (r: Option<String>)
        ensures
            (preferred matches Some(p) && file_at(self.files@, p@, self.files@.len() as int) is Some)
                ==> (r matches Some(q) && q@ == preferred->0@),
            !(preferred matches Some(p) && file_at(self.files@, p@, self.files@.len() as int) is Some)
                ==> match r {
                Some(q) => exists|i: int|
                    0 <= i < self.file_tree@.len() && is_file_row(self.file_tree@[i]) && (forall|j: int|
                        0 <= j < i ==> !is_file_row(#[trigger] self.file_tree@[j])) && q@
                        == self.file_tree@[i].path@,
                None => forall|j: int|
                    0 <= j < self.file_tree@.len() ==> !is_file_row(#[trigger] self.file_tree@[j]),
            },
    {
        if let Some(p) = preferred {
            if self.file_index(p).is_some() {
                return Some(crate::text::owned(p));
            }
        }
        match first_file_row(&self.file_tree) {
            Some(i) => Some(crate::text::owned(self.file_tree[i].path.as_str())),
            None => None,
        }
    }

    /// The rows the Files panel shows under a filter.
    pub fn visible_file_rows(&self, query: &str) -> (r: Vec<usize>)
        ensures
            r@ == filtered_rows(self.file_tree@, self.files@, query@),
    {
        filtered_tree(&self.file_tree, &self.files, query)
    }

    /// The first Diff row to select for a tree row: the first row when the
    /// row's file has hunks; none for a folder, a file without hunks or no
    /// row.
    pub fn first_diff_row(&self, row: Option<usize>) -> (r: Option<usize>)
        ensures
            r == self.first_row_of(row),
    {
        match row {
            None => None,
            Some(t) => match self.file_for_tree_row(t) {
                Some(file) => if file.hunks.len() > 0 {
                    Some(0)
                } else {
                    None
                },
                None => None,
            },
        }
    }
}

impl ChangeState {
    /// The first Diff row for a tree row: row 0 when the file the row shows
    /// has hunks, none otherwise.
    pub open spec fn first_row_of(self, row: Option<usize>) -> Option<usize> {
        if row matches Some(t) && t < self.file_tree@.len() && match file_at(
            self.files@,
            self.file_tree@[t as int].path@,
            self.files@.len() as int,
        ) {
            Some(i) => self.files@[i as int]@.hunks.len() > 0,
            None => false,
        } {
            Some(0usize)
        } else {
            None
        }
    }

    /// The position of the selected file: the first file with the selected
    /// path.
    pub open spec fn chosen_index(self) -> Option<nat> {
        match self.selected_file_path {
            None => None,
            Some(p) => file_at(self.files@, p@, self.files@.len() as int),
        }
    }

    /// The selected file.
    pub open spec fn chosen_file(self) -> Option<ChangedFile> {
        match self.chosen_index() {
            Some(i) => Some(self.files@[i as int]),
            None => None,
        }
    }

    /// The number of rows the Diff panel shows: those of the selected file,
    /// none without one.
    pub open spec fn shown_rows(self) -> nat {
        match self.chosen_file() {
            Some(f) => row_count(f@.hunks),
            None => 0,
        }
    }

    /// Whether the Diff rows of the selected file can be counted in `usize`.
    pub open spec fn rows_countable(self) -> bool {
        match self.chosen_file() {
            Some(f) => rows_fit(f),
            None => true,
        }
    }

    /// Two states that differ at most in what the Diff panel selects.
    pub open spec fn same_but_diff_list(self, other: ChangeState) -> bool {
        &&& self.mode == other.mode
        &&& self.diff_view == other.diff_view
        &&& self.files == other.files
        &&& self.file_tree == other.file_tree
        &&& self.file_list == other.file_list
        &&& self.selected_file_path == other.selected_file_path
    }

    /// The number of rows the Diff panel shows for the selected file; 0
    /// without one.
    pub fn diff_row_count(&self) -> (r: usize)
        requires
            self.rows_countable(),
        ensures
            r == self.shown_rows(),
    {
        match self.selected_file() {
            Some(file) => crate::diff_rows::diff_row_count(file),
            None => 0,
        }
    }

    /// The hunk that holds the selected Diff row; none without a selected
    /// file or row, or past the file's last row.
    pub fn selected_hunk_index(&self) -> (r: Option<usize>)
        ensures
            match (self.chosen_file(), self.diff_list.selected) {
                (Some(f), Some(row)) => (r matches Some(k) ==> holds_row(
                    f@.hunks,
                    k as int,
                    row as int,
                )) && (r is None <==> row >= row_count(f@.hunks)),
                _ => r is None,
            },
    {
        match self.selected_file() {
            Some(file) => match self.diff_list.selected {
                Some(row) => hunk_at_row(file, row),
                None => None,
            },
            None => None,
        }
    }

    /// Moves the Diff selection by `delta` rows, stopping at the first and
    /// the last row; without rows nothing is selected.
    pub fn move_diff_by(&mut self, delta: isize)
        requires
            old(self).rows_countable(),
        ensures
            final(self).same_but_diff_list(*old(self)),
            final(self).diff_list.selected == moved_position(
                old(self).diff_list.selected,
                old(self).shown_rows() as usize,
                delta,
            ),
            final(self).diff_list.offset == if final(self).diff_list.selected is None {
                0
            } else {
                old(self).diff_list.offset
            },
            final(self).diff_list.selected is None <==> old(self).shown_rows() == 0,
            final(self).diff_list.selected matches Some(row) ==> row < old(self).shown_rows(),
    {
        let count = self.diff_row_count();
        let next = moved_selection(self.diff_list.selected, count, delta);
        proof {
            crate::navigation::lemma_moved_selection_in_bounds(self.diff_list.selected, count, delta);
        }
        self.diff_list.select(next);
    }

    /// Selects a Diff row, or nothing when the row is past the last one.
    pub fn select_diff_row(&mut self, row: usize)
        requires
            old(self).rows_countable(),
        ensures
            final(self).same_but_diff_list(*old(self)),
            final(self).diff_list == if row < old(self).shown_rows() {
                ListSelection { selected: Some(row), offset: old(self).diff_list.offset }
            } else {
                ListSelection { selected: None, offset: 0 }
            },
    {
        let count = self.diff_row_count();
        if row < count {
            self.diff_list.select(Some(row));
        } else {
            self.diff_list.select(None);
        }
    }

    /// Whether a file is selected and the Diff selection is one of its rows.
    pub open spec fn can_toggle(self) -> bool {
        &&& self.chosen_index() is Some
        &&& self.diff_list.selected is Some
        &&& self.diff_list.selected->0 < row_count(
            self.files@[self.chosen_index()->0 as int]@.hunks,
        )
    }

    /// Folds or unfolds the hunk that holds the selected Diff row and selects
    /// the hunk's header; without a selected file or row, or past the file's
    /// last row, nothing changes.
    pub fn toggle_selected_hunk(&mut self)
        ensures
            !old(self).can_toggle() ==> *final(self) == *old(self),
            old(self).can_toggle() ==> {
                let i = old(self).chosen_index()->0 as int;
                let row = old(self).diff_list.selected->0 as int;
                let hunks = old(self).files@[i]@.hunks;
                &&& exists|k: int|
                    #![trigger holds_row(hunks, k, row)]
                    holds_row(hunks, k, row) && final(self).diff_list.selected == Some(
                        rows_before(hunks, k) as usize,
                    ) && final(self).files@[i]@ == (FileView {
                        hunks: flipped(hunks, k),
                        ..old(self).files@[i]@
                    })
                &&& final(self).files@.len() == old(self).files@.len()
                &&& forall|j: int|
                    0 <= j < old(self).files@.len() && j != i ==> final(self).files@[j]
                        == old(self).files@[j]
            },
            final(self).diff_list.offset == old(self).diff_list.offset,
            final(self).mode == old(self).mode,
            final(self).diff_view == old(self).diff_view,
            final(self).file_tree == old(self).file_tree,
            final(self).file_list == old(self).file_list,
            final(self).selected_file_path == old(self).selected_file_path,
    {
        let found = self.selected_file_index();
        let selected = self.diff_list.selected;
        if found.is_none() || selected.is_none() {
            return ;
        }
        let i = found.unwrap();
        let row = selected.unwrap();
        assert(self.files@.len() == self.files.len());
        if hunk_at_row(&self.files[i], row).is_none() {
            return ;
        }
        let ghost before = self.files@[i as int];
        let header = toggle_hunk_at(&mut self.files[i], row);
        if let Some(h) = header {
            self.diff_list.selected = Some(h);
            proof {
                let k = choose|k: int|
                    #![trigger holds_row(before@.hunks, k, row as int)]
                    holds_row(before@.hunks, k, row as int) && h == rows_before(before@.hunks, k)
                        && self.files@[i as int]@ == (FileView {
                        hunks: flipped(before@.hunks, k),
                        ..before@
                    });
                assert(holds_row(old(self).files@[i as int]@.hunks, k, row as int));
            }
        }
    }

    /// Whether the rows of the selected file, none folded, can be counted in
    /// `usize`.
    pub open spec fn all_rows_countable(self) -> bool {
        match self.chosen_file() {
            Some(f) => full_row_count(f@.hunks) <= usize::MAX,
            None => true,
        }
    }

    /// Selects the last changed line of the selected file's last hunk (its
    /// header when no line changed) and scrolls to it; without a file or
    /// hunks, selects nothing and scrolls to the top.
    pub fn select_latest_diff_row(&mut self)
        requires
            old(self).all_rows_countable(),
        ensures
            final(self).same_but_diff_list(*old(self)),
            match old(self).chosen_file() {
                Some(f) => match latest_change(f@.hunks) {
                    Some(row) => final(self).diff_list == (ListSelection {
                        selected: Some(row as usize),
                        offset: row as usize,
                    }),
                    None => final(self).diff_list == (ListSelection { selected: None, offset: 0 }),
                },
                None => final(self).diff_list == (ListSelection { selected: None, offset: 0 }),
            },
    {
        let row = match self.selected_file() {
            Some(file) => latest_change_row(file),
            None => {
                self.diff_list.select(None);
                return ;
            },
        };
        self.diff_list.select(row);
        self.diff_list.offset = match row {
            Some(r) => r,
            None => 0,
        };
    }

    /// Puts back a saved Diff position after the selected file was loaded
    /// again: the hunks listed as folded are folded and the others unfolded,
    /// the saved row is selected (the first row when the position names no
    /// hunk of the file) and the saved scroll offset kept, at most the last
    /// row. Without a saved position the first row is selected at the top;
    /// without a selected file nothing is.
    pub fn restore_diff_position(&mut self, position: Option<&DiffPosition>)
        requires
            old(self).all_rows_countable(),
        ensures
            final(self).mode == old(self).mode,
            final(self).diff_view == old(self).diff_view,
            final(self).file_tree == old(self).file_tree,
            final(self).file_list == old(self).file_list,
            final(self).selected_file_path == old(self).selected_file_path,
            old(self).chosen_index() is None ==> final(self).files == old(self).files
                && final(self).diff_list == (ListSelection { selected: None, offset: 0 }),
            old(self).chosen_index() is Some && position is None ==> final(self).files
                == old(self).files && final(self).diff_list == (ListSelection {
                selected: old(self).first_row_of(old(self).file_list.selected),
                offset: 0,
            }),
            old(self).chosen_index() matches Some(i) ==> position matches Some(p) ==> {
                let hunks = restored_hunks(
                    old(self).files@[i as int]@.hunks,
                    ids_view(p.collapsed_hunks@),
                );
                &&& final(self).files@.len() == old(self).files@.len()
                &&& forall|j: int|
                    0 <= j < old(self).files@.len() && j != i ==> final(self).files@[j]
                        == old(self).files@[j]
                &&& final(self).files@[i as int]@ == (FileView {
                    hunks,
                    ..old(self).files@[i as int]@
                })
                &&& final(self).diff_list.selected == match row_of_position(
                    hunks,
                    p.hunk_id.0@,
                    p.row_in_hunk as nat,
                ) {
                    Some(row) => Some(row as usize),
                    None => old(self).first_row_of(old(self).file_list.selected),
                }
                &&& final(self).diff_list.offset == restored_offset(
                    p.scroll_offset,
                    row_count(hunks),
                )
            },
    {
        let found = self.selected_file_index();
        if found.is_none() {
            self.diff_list.select(None);
            return ;
        }
        let i = found.unwrap();
        assert(self.files@.len() == self.files.len());
        match position {
            None => {
                let first = self.first_diff_row(self.file_list.selected);
                self.diff_list.select(first);
                self.diff_list.offset = 0;
            },
            Some(p) => {
                let ghost start = *self;
                restore_collapsed(&mut self.files[i], p);
                proof {
                    let old_hunks = start.files@[i as int]@.hunks;
                    let ids = ids_view(p.collapsed_hunks@);
                    lemma_full_count_restored(old_hunks, ids);
                    lemma_row_count_within_full(restored_hunks(old_hunks, ids));
                    assert forall|j: int| 0 <= j < start.files@.len() implies start.files@[j].path@
                        == self.files@[j].path@ by {
                        if j == i {
                            assert(self.files@[j]@.path == start.files@[j]@.path);
                        }
                    }
                    lemma_file_at_same_paths(
                        start.files@,
                        self.files@,
                        self.selected_file_path->0@,
                        self.files@.len() as int,
                    );
                    match start.file_list.selected {
                        Some(t) => if t < self.file_tree@.len() {
                            lemma_file_at_same_paths(
                                start.files@,
                                self.files@,
                                self.file_tree@[t as int].path@,
                                self.files@.len() as int,
                            );
                            lemma_file_at_below(
                                start.files@,
                                self.file_tree@[t as int].path@,
                                self.files@.len() as int,
                            );
                        },
                        None => {},
                    }
                    assert(self.first_row_of(self.file_list.selected) == start.first_row_of(
                        start.file_list.selected,
                    ));
                }
                let selected = match row_for_position(&self.files[i], p) {
                    Some(row) => Some(row),
                    None => self.first_diff_row(self.file_list.selected),
                };
                let offset = restore_scroll_offset(&self.files[i], p);
                self.diff_list.select(selected);
                self.diff_list.offset = offset;
            },
        }
    }

    /// The Diff row whose position a reload keeps: the selected one, the
    /// first without a selection.
    pub open spec fn saved_row(self) -> usize {
        match self.diff_list.selected {
            Some(s) => s,
            None => 0,
        }
    }

    /// The Diff position to keep across a reload of the selected file: the
    /// hunk and place of the selected row (the first row when none is
    /// selected), the scroll offset and the folded hunks; none without a
    /// selected file or past its last row.
    pub fn diff_position(&self) -> (r: Option<DiffPosition>)
        ensures
            self.chosen_file() is None ==> r is None,
            self.chosen_file() matches Some(f) ==> (r is None <==> self.saved_row() >= row_count(
                f@.hunks,
            )),
            self.chosen_file() matches Some(f) ==> (r matches Some(p) ==> exists|k: int|
                #![trigger holds_row(f@.hunks, k, self.saved_row() as int)]
                holds_row(f@.hunks, k, self.saved_row() as int) && p.hunk_id.0@ == f@.hunks[k].id
                    && p.row_in_hunk == self.saved_row() - rows_before(f@.hunks, k)),
            r matches Some(p) ==> p.scroll_offset == self.diff_list.offset,
            self.chosen_file() matches Some(f) ==> (r matches Some(p) ==> ids_view(
                p.collapsed_hunks@,
            ) == collapsed_ids(f@.hunks)),
    {
        match self.selected_file() {
            None => None,
            Some(file) => {
                let row = match self.diff_list.selected {
                    Some(s) => s,
                    None => 0,
                };
                let r = crate::diff_rows::diff_position(file, row, self.diff_list.offset);
                proof {
                    if r is Some {
                        let p = r->0;
                        let k = choose|k: int|
                            holds_row(file@.hunks, k, row as int) && p.hunk_id.0@ == file@.hunks[k].id
                                && p.row_in_hunk == row - rows_before(file@.hunks, k);
                        assert(holds_row(self.chosen_file()->0@.hunks, k, self.saved_row() as int));
                    }
                }
                r
            },
        }
    }

    /// The rows of the selected file that a Diff search for `query` finds.
    pub open spec fn search_rows(self, query: Seq<char>) -> Seq<usize> {
        usize_rows(diff_match_rows(self.chosen_file(), query))
    }

    /// Moves the Diff selection to a match of a search: forward to the first
    /// match after the selected row, backward to the last one before it,
    /// each wrapping around, and with no direction to the first match. An
    /// empty query changes nothing; so does a query that matches no row, for
    /// which `true` is returned.
    pub fn search_diff_query(&mut self, query: &str, direction: isize) -> (missed: bool)
        requires
            old(self).rows_countable(),
        ensures
            missed == (query@.len() > 0 && old(self).search_rows(query@).len() == 0),
            final(self).same_but_diff_list(*old(self)),
            final(self).diff_list.offset == old(self).diff_list.offset,
            query@.len() == 0 || missed ==> final(self).diff_list == old(self).diff_list,
            query@.len() > 0 && !missed ==> {
                let rows = old(self).search_rows(query@);
                final(self).diff_list.selected == Some(
                    next_match(
                        rows,
                        match old(self).diff_list.selected {
                            Some(s) => s,
                            None => rows[0],
                        },
                        direction,
                    ),
                )
            },
            query@.len() > 0 && !missed ==> old(self).search_rows(query@).contains(
                final(self).diff_list.selected->0,
            ),
    {
        if query.is_empty() {
            return false;
        }
        let matches = diff_matches(self.selected_file(), query);
        proof {
            lemma_usize_rows_of_nats(matches@);
        }
        if matches.len() == 0 {
            return true;
        }
        let next = next_search_match(&matches, self.diff_list.selected, direction);
        proof {
            crate::search::lemma_next_match_is_a_match(
                matches@,
                match self.diff_list.selected {
                    Some(s) => s,
                    None => matches@[0],
                },
                direction,
            );
        }
        self.diff_list.selected = Some(next);
        false
    }

    /// The place of the selected Diff row among the rows a search finds,
    /// counted from 1 (0 when it is not one of them), and how many rows it
    /// finds; none for an empty query.
    pub fn diff_search_match_position(&self, query: &str) -> (r: Option<(usize, usize)>)
        requires
            self.rows_countable(),
        ensures
            query@.len() == 0 ==> r is None,
            query@.len() > 0 ==> (r matches Some((current, total)) && (current as nat, total as nat)
                == match_place(self.search_rows(query@), self.diff_list.selected)),
    {
        if query.is_empty() {
            return None;
        }
        let matches = diff_matches(self.selected_file(), query);
        proof {
            lemma_usize_rows_of_nats(matches@);
        }
        if matches.len() == 0 {
            return Some((0, 0));
        }
        Some(search_match_position(&matches, self.diff_list.selected))
    }

    /// The tree row the Files panel selects for a path: the first row with
    /// the path; none without a path or such a row.
    pub open spec fn row_of_path(self, path: Option<String>) -> Option<usize> {
        match path {
            Some(p) => match row_at_path(self.file_tree@, p@, self.file_tree@.len() as int) {
                Some(i) => Some(i as usize),
                None => None,
            },
            None => None,
        }
    }

    /// Whether `after` selects the file of tree row `row` in place of what
    /// `self` selected: the row's path is selected with its tree row, and the
    /// Diff panel selects that row's first Diff row, for `diff_row`.
    pub open spec fn selects_row(self, after: ChangeState, row: usize, diff_row: Option<usize>) -> bool {
        &&& after.mode == self.mode
        &&& after.diff_view == self.diff_view
        &&& after.files == self.files
        &&& after.file_tree == self.file_tree
        &&& after.selected_file_path matches Some(p) && p@ == self.file_tree@[row as int].path@
        &&& after.file_list.selected == self.row_of_path(after.selected_file_path)
        &&& after.file_list.offset == if after.file_list.selected is None {
            0
        } else {
            self.file_list.offset
        }
        &&& after.diff_list.selected == self.first_row_of(diff_row)
        &&& after.diff_list.offset == if after.diff_list.selected is None {
            0
        } else {
            self.diff_list.offset
        }
    }

    /// Moves the file selection by `delta` files among the shown rows,
    /// skipping folders, and selects the new file's first Diff row; `true`
    /// when the selection changed, and nothing changes otherwise.
    pub fn move_file(&mut self, visible: &Vec<usize>, delta: isize) -> (moved: bool)
        requires
            rows_in_tree(visible@, old(self).file_tree@),
        ensures
            ({
                let next = moved_file_row(
                    old(self).file_list.selected,
                    visible@,
                    old(self).file_tree@,
                    delta,
                );
                &&& moved == (next != old(self).file_list.selected)
                &&& !moved ==> *final(self) == *old(self)
                &&& moved && next is None ==> final(self).selected_file_path is None
                    && final(self).file_list == (ListSelection { selected: None, offset: 0 })
                    && final(self).diff_list == (ListSelection { selected: None, offset: 0 })
                    && final(self).files == old(self).files && final(self).file_tree
                    == old(self).file_tree && final(self).mode == old(self).mode
                    && final(self).diff_view == old(self).diff_view
                &&& moved ==> (next matches Some(row) ==> row < old(self).file_tree@.len()
                    && visible@.contains(row) && is_file_row(old(self).file_tree@[row as int])
                    && old(self).selects_row(*final(self), row, final(self).file_list.selected))
            }),
    {
        let selected = self.file_list.selected;
        let next = moved_visible_file_selection(selected, visible, &self.file_tree, delta);
        if next == selected {
            return false;
        }
        assert(visible@.len() == visible.len());
        proof {
            crate::files::lemma_moved_file_row_is_a_visible_file(
                selected,
                visible@,
                self.file_tree@,
                delta,
            );
        }
        let path = match next {
            Some(row) => Some(crate::text::owned(self.file_tree[row].path.as_str())),
            None => None,
        };
        self.select_file_path(path);
        let first = self.first_diff_row(self.file_list.selected);
        self.diff_list.select(first);
        true
    }

    /// Selects the file of a clicked row of the Files panel and its first
    /// Diff row; `true` when a file was selected. A click past the shown
    /// rows, on a folder or on the selected row changes nothing.
    pub fn select_file_row(&mut self, visible: &Vec<usize>, position: usize) -> (picked: bool)
        ensures
            ({
                let pick = file_row_pick(
                    visible@,
                    old(self).file_tree@,
                    position as nat,
                    old(self).file_list.selected,
                );
                &&& picked == pick is Some
                &&& pick is None ==> *final(self) == *old(self)
                &&& pick matches Some(row) ==> old(self).selects_row(*final(self), row, Some(row))
            }),
    {
        let choice = file_row_choice(visible, &self.file_tree, position, self.file_list.selected);
        match choice {
            None => false,
            Some(row) => {
                let path = crate::text::owned(self.file_tree[row].path.as_str());
                self.select_file_path(Some(path));
                let first = self.first_diff_row(Some(row));
                self.diff_list.select(first);
                true
            },
        }
    }
}

} // verus!
