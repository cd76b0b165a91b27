//! The rows of the Diff panel: each hunk shows a header row and, unless it is
//! collapsed, one row per diff line. Positions in that list, the hunk that
//! holds a row, and the position a refresh restores.
use vstd::prelude::*;

use crate::model::{rows_view, ChangedFile, DiffHunk, DiffRow, HunkId, HunkView, RowView};

verus! {

/// The rows a hunk takes: its header, and its lines unless collapsed.
pub open spec fn hunk_height(h: HunkView) -> nat {
    if h.collapsed {
        1
    } else {
        1 + h.rows.len()
    }
}

/// The rows taken by the first `k` hunks.
pub open spec fn rows_before(hunks: Seq<HunkView>, k: int) -> nat
    decreases k,
{
    if k <= 0 {
        0
    } else {
        rows_before(hunks, k - 1) + hunk_height(hunks[k - 1])
    }
}

/// The rows of all hunks.
pub open spec fn row_count(hunks: Seq<HunkView>) -> nat {
    rows_before(hunks, hunks.len() as int)
}

/// The hunk that holds a row, if the row exists.
pub open spec fn holds_row(hunks: Seq<HunkView>, k: int, row: int) -> bool {
    0 <= k < hunks.len() && rows_before(hunks, k) <= row < rows_before(hunks, k + 1)
}

/// The rows before a hunk grow with the hunk's position.
pub proof fn lemma_rows_before_monotone(hunks: Seq<HunkView>, a: int, b: int)
    requires
        a <= b,
    ensures
        rows_before(hunks, a) <= rows_before(hunks, b),
    decreases b - a,
{
    if a < b {
        lemma_rows_before_monotone(hunks, a, b - 1);
    }
}

/// At most one hunk holds a row.
pub proof fn lemma_holds_row_unique(hunks: Seq<HunkView>, k1: int, k2: int, row: int)
    requires
        holds_row(hunks, k1, row),
        holds_row(hunks, k2, row),
    ensures
        k1 == k2,
{
    if k1 < k2 {
        lemma_rows_before_monotone(hunks, k1 + 1, k2);
    }
    if k2 < k1 {
        lemma_rows_before_monotone(hunks, k2 + 1, k1);
    }
}

/// Every row before the end is held by some hunk.
pub proof fn lemma_row_is_held(hunks: Seq<HunkView>, row: int)
    requires
        0 <= row < row_count(hunks),
    ensures
        exists|k: int| holds_row(hunks, k, row),
    decreases hunks.len(),
{
    let n = hunks.len() as int;
    if row >= rows_before(hunks, n - 1) {
        assert(holds_row(hunks, n - 1, row));
    } else {
        let shorter = hunks.drop_last();
        assert forall|j: int| 0 <= j <= n - 1 implies rows_before(shorter, j) == rows_before(hunks, j) by {
            lemma_rows_before_prefix(hunks, shorter, j);
        }
        lemma_row_is_held(shorter, row);
        let k = choose|k: int| holds_row(shorter, k, row);
        lemma_rows_before_prefix(hunks, shorter, k);
        lemma_rows_before_prefix(hunks, shorter, k + 1);
        assert(holds_row(hunks, k, row));
    }
}

proof fn lemma_rows_before_prefix(hunks: Seq<HunkView>, prefix: Seq<HunkView>, j: int)
    requires
        prefix.len() <= hunks.len(),
        forall|i: int| 0 <= i < prefix.len() ==> prefix[i] == hunks[i],
        j <= prefix.len(),
    ensures
        rows_before(prefix, j) == rows_before(hunks, j),
    decreases j,
{
    if j > 0 {
        lemma_rows_before_prefix(hunks, prefix, j - 1);
    }
}

/// The rows of a file fit in `usize`.
pub open spec fn rows_fit(file: ChangedFile) -> bool {
    row_count(file@.hunks) <= usize::MAX
}

/// The height of one hunk.
fn height_of(hunk: &DiffHunk) -> (r: usize)
    requires
        hunk_height(hunk@) <= usize::MAX,
    ensures
        r == hunk_height(hunk@),
{
    if hunk.collapsed {
        1
    } else {
        1 + hunk.rows.len()
    }
}

/// Whether the rows of a file can be counted in `usize`.
pub fn diff_rows_fit(file: &ChangedFile) -> (r: bool)
    ensures
        r == rows_fit(*file),
{
    let mut total: usize = 0;
    let mut k: usize = 0;
    while k < file.hunks.len()
        invariant
            k <= file.hunks@.len(),
            total == rows_before(file@.hunks, k as int),
        decreases file.hunks.len() - k,
    {
        let hunk = &file.hunks[k];
        if !hunk.collapsed && hunk.rows.len() >= usize::MAX - total {
            proof {
                lemma_rows_before_monotone(file@.hunks, k as int + 1, file@.hunks.len() as int);
            }
            return false;
        }
        if hunk.collapsed && total == usize::MAX {
            proof {
                lemma_rows_before_monotone(file@.hunks, k as int + 1, file@.hunks.len() as int);
            }
            return false;
        }
        total = total + height_of(hunk);
        k += 1;
    }
    true
}

/// The number of rows the Diff panel shows for a file.
pub fn diff_row_count(file: &ChangedFile) -> (r: usize)
    requires
        rows_fit(*file),
    ensures
        r == row_count(file@.hunks),
{
    let mut total: usize = 0;
    let mut k: usize = 0;
    while k < file.hunks.len()
        invariant
            k <= file.hunks@.len(),
            rows_fit(*file),
            total == rows_before(file@.hunks, k as int),
        decreases file.hunks.len() - k,
    {
        proof {
            lemma_rows_before_monotone(file@.hunks, k as int + 1, file@.hunks.len() as int);
        }
        total = total + height_of(&file.hunks[k]);
        k += 1;
    }
    total
}

/// The hunk that holds a row of the Diff panel.
pub fn hunk_at_row(file: &ChangedFile, row: usize) -> (r: Option<usize>)
    ensures
        r matches Some(k) ==> holds_row(file@.hunks, k as int, row as int),
        r is None <==> row >= row_count(file@.hunks),
{
    let ghost hunks = file@.hunks;
    let mut start: usize = 0;
    let mut k: usize = 0;
    while k < file.hunks.len()
        invariant
            k <= hunks.len(),
            hunks == file@.hunks,
            start == rows_before(hunks, k as int),
            start <= row,
        decreases file.hunks.len() - k,
    {
        let hunk = &file.hunks[k];
        let within = if hunk.collapsed {
            row - start < 1
        } else {
            row - start <= hunk.rows.len()
        };
        if within {
            proof {
                lemma_rows_before_monotone(hunks, k as int + 1, hunks.len() as int);
            }
            return Some(k);
        }
        start = if hunk.collapsed {
            start + 1
        } else {
            start + 1 + hunk.rows.len()
        };
        k += 1;
    }
    None
}

/// The hunk that holds a row and the row's place within the hunk, the header
/// being place 0.
pub fn row_position(file: &ChangedFile, row: usize) -> (r: Option<(usize, usize)>)
    ensures
        r matches Some((k, within)) ==> holds_row(file@.hunks, k as int, row as int) && within == row
            - rows_before(file@.hunks, k as int),
        r is None <==> row >= row_count(file@.hunks),
{
    let ghost hunks = file@.hunks;
    let mut start: usize = 0;
    let mut k: usize = 0;
    while k < file.hunks.len()
        invariant
            k <= hunks.len(),
            hunks == file@.hunks,
            start == rows_before(hunks, k as int),
            start <= row,
        decreases file.hunks.len() - k,
    {
        let hunk = &file.hunks[k];
        let within = if hunk.collapsed {
            row - start < 1
        } else {
            row - start <= hunk.rows.len()
        };
        if within {
            proof {
                lemma_rows_before_monotone(hunks, k as int + 1, hunks.len() as int);
            }
            return Some((k, row - start));
        }
        start = if hunk.collapsed {
            start + 1
        } else {
            start + 1 + hunk.rows.len()
        };
        k += 1;
    }
    None
}

/// The diff line that a row of the Diff panel shows: a header row stands for
/// the first line of its hunk.
pub open spec fn line_at(hunks: Seq<HunkView>, k: int, row: int) -> Option<RowView> {
    let within = row - rows_before(hunks, k);
    let rows = hunks[k].rows;
    if within == 0 {
        if rows.len() > 0 {
            Some(rows[0])
        } else {
            None
        }
    } else {
        Some(rows[within - 1])
    }
}

/// The diff line that a row of the Diff panel shows.
pub fn row_at(file: &ChangedFile, row: usize) -> (r: Option<&DiffRow>)
    ensures
        r matches Some(line) ==> exists|k: int|
            holds_row(file@.hunks, k, row as int) && line_at(file@.hunks, k, row as int) == Some(
                line@,
            ),
        r is None ==> row >= row_count(file@.hunks) || exists|k: int|
            holds_row(file@.hunks, k, row as int) && line_at(file@.hunks, k, row as int) is None,
{
    match row_position(file, row) {
        None => None,
        Some((k, within)) => {
            let hunk = &file.hunks[k];
            if within == 0 {
                if hunk.rows.len() > 0 {
                    Some(&hunk.rows[0])
                } else {
                    None
                }
            } else {
                Some(&hunk.rows[within - 1])
            }
        },
    }
}

/// Where the Diff panel was: the hunk of the selected row by its identity, the
/// row's place in it, the scroll offset, and which hunks were collapsed.
#[derive(Clone, Debug, PartialEq, Eq)]
pub struct DiffPosition {
    pub hunk_id: HunkId,
    pub row_in_hunk: usize,
    pub scroll_offset: usize,
    pub collapsed_hunks: Vec<HunkId>,
}

/// The identities of the collapsed hunks, in order.
pub open spec fn collapsed_ids(hunks: Seq<HunkView>) -> Seq<Seq<char>>
    decreases hunks.len(),
{
    if hunks.len() == 0 {
        seq![]
    } else if hunks.last().collapsed {
        collapsed_ids(hunks.drop_last()).push(hunks.last().id)
    } else {
        collapsed_ids(hunks.drop_last())
    }
}

/// The identities of a list of hunk identities.
pub open spec fn ids_view(v: Seq<HunkId>) -> Seq<Seq<char>> {
    v.map_values(|id: HunkId| id.0@)
}

/// The first hunk with an identity, if any.
pub open spec fn first_with_id(hunks: Seq<HunkView>, id: Seq<char>, k: int) -> bool {
    0 <= k < hunks.len() && hunks[k].id == id && forall|j: int| 0 <= j < k ==> hunks[j].id != id
}

/// The row that a saved position names in a file: the row at its place in the
/// first hunk with its identity, the place limited to the hunk's last row.
pub open spec fn row_of_position(hunks: Seq<HunkView>, id: Seq<char>, row_in_hunk: nat) -> Option<
    nat,
> {
    if exists|k: int| first_with_id(hunks, id, k) {
        let k = choose|k: int| first_with_id(hunks, id, k);
        let max_row: nat = if hunks[k].collapsed {
            0
        } else {
            hunks[k].rows.len()
        };
        Some(rows_before(hunks, k) + if row_in_hunk < max_row {
            row_in_hunk
        } else {
            max_row
        })
    } else {
        None
    }
}

proof fn lemma_first_with_id_unique(hunks: Seq<HunkView>, id: Seq<char>, a: int, b: int)
    requires
        first_with_id(hunks, id, a),
        first_with_id(hunks, id, b),
    ensures
        a == b,
{
    if a < b {
        assert(hunks[a].id != id);
    }
    if b < a {
        assert(hunks[b].id != id);
    }
}

/// The row that a saved position names in a file.
pub fn row_for_position(file: &ChangedFile, position: &DiffPosition) -> (r: Option<usize>)
    requires
        rows_fit(*file),
    ensures
        r matches Some(row) ==> row_of_position(
            file@.hunks,
            position.hunk_id.0@,
            position.row_in_hunk as nat,
        ) == Some(row as nat),
        r is None ==> row_of_position(
            file@.hunks,
            position.hunk_id.0@,
            position.row_in_hunk as nat,
        ) is None,
{
    let ghost hunks = file@.hunks;
    let ghost id = position.hunk_id.0@;
    let mut start: usize = 0;
    let mut k: usize = 0;
    while k < file.hunks.len()
        invariant
            k <= hunks.len(),
            hunks == file@.hunks,
            id == position.hunk_id.0@,
            rows_fit(*file),
            start == rows_before(hunks, k as int),
            forall|j: int| 0 <= j < k ==> hunks[j].id != id,
        decreases file.hunks.len() - k,
    {
        let hunk = &file.hunks[k];
        proof {
            lemma_rows_before_monotone(hunks, k as int + 1, hunks.len() as int);
        }
        if hunk.id.0 == position.hunk_id.0 {
            let max_row: usize = if hunk.collapsed {
                0
            } else {
                hunk.rows.len()
            };
            let place = if position.row_in_hunk < max_row {
                position.row_in_hunk
            } else {
                max_row
            };
            proof {
                assert(first_with_id(hunks, id, k as int));
                let c = choose|c: int| first_with_id(hunks, id, c);
                lemma_first_with_id_unique(hunks, id, c, k as int);
            }
            return Some(start + place);
        }
        start = start + height_of(hunk);
        k += 1;
    }
    proof {
        if exists|c: int| first_with_id(hunks, id, c) {
            let c = choose|c: int| first_with_id(hunks, id, c);
            assert(hunks[c].id != id);
        }
    }
    None
}

/// The saved position of a selected row, if the row exists.
pub fn diff_position(file: &ChangedFile, selected_row: usize, scroll_offset: usize) -> (r: Option<
    DiffPosition,
>)
    ensures
        r is None <==> selected_row >= row_count(file@.hunks),
        r matches Some(p) ==> exists|k: int|
            holds_row(file@.hunks, k, selected_row as int) && p.hunk_id.0@ == file@.hunks[k].id
                && p.row_in_hunk == selected_row - rows_before(file@.hunks, k),
        r matches Some(p) ==> p.scroll_offset == scroll_offset && ids_view(p.collapsed_hunks@)
            == collapsed_ids(file@.hunks),
{
    match row_position(file, selected_row) {
        None => None,
        Some((k, within)) => {
            let mut collapsed: Vec<HunkId> = Vec::new();
            let mut j: usize = 0;
            assert(ids_view(collapsed@) =~= collapsed_ids(file@.hunks.take(0)));
            while j < file.hunks.len()
                invariant
                    j <= file@.hunks.len(),
                    ids_view(collapsed@) == collapsed_ids(file@.hunks.take(j as int)),
                decreases file.hunks.len() - j,
            {
                assert(file@.hunks.take(j as int + 1).drop_last() =~= file@.hunks.take(j as int));
                if file.hunks[j].collapsed {
                    let ghost before = collapsed@;
                    collapsed.push(HunkId(file.hunks[j].id.0.clone()));
                    assert(ids_view(collapsed@) =~= ids_view(before).push(file@.hunks[j as int].id));
                }
                j += 1;
            }
            assert(file@.hunks.take(file@.hunks.len() as int) =~= file@.hunks);
            Some(
                DiffPosition {
                    hunk_id: HunkId(file.hunks[k].id.0.clone()),
                    row_in_hunk: within,
                    scroll_offset,
                    collapsed_hunks: collapsed,
                },
            )
        },
    }
}

/// No two hunks share an identity.
pub open spec fn ids_distinct(hunks: Seq<HunkView>) -> bool {
    forall|i: int, j: int| 0 <= i < j < hunks.len() ==> hunks[i].id != hunks[j].id
}

/// Saving the position of a row and restoring it in the same file gives the
/// row back, when the hunks' identities are distinct.
pub proof fn lemma_position_round_trip(hunks: Seq<HunkView>, k: int, row: int)
    requires
        ids_distinct(hunks),
        holds_row(hunks, k, row),
    ensures
        row_of_position(hunks, hunks[k].id, (row - rows_before(hunks, k)) as nat) == Some(
            row as nat,
        ),
{
    let id = hunks[k].id;
    assert(first_with_id(hunks, id, k));
    let c = choose|c: int| first_with_id(hunks, id, c);
    lemma_first_with_id_unique(hunks, id, c, k);
}


/// The hunks with their collapsed flags set from a saved position: a hunk is
/// collapsed when its identity is among the saved ones.
pub open spec fn restored_hunks(hunks: Seq<HunkView>, collapsed: Seq<Seq<char>>) -> Seq<HunkView> {
    hunks.map_values(|h: HunkView| HunkView { collapsed: collapsed.contains(h.id), ..h })
}

fn contains_id(ids: &Vec<HunkId>, id: &HunkId) -> (r: bool)
    ensures
        r == ids_view(ids@).contains(id.0@),
{
    let mut i: usize = 0;
    while i < ids.len()
        invariant
            i <= ids@.len(),
            forall|j: int| 0 <= j < i ==> ids@[j].0@ != id.0@,
        decreases ids.len() - i,
    {
        if ids[i].0 == id.0 {
            assert(ids_view(ids@)[i as int] == id.0@);
            return true;
        }
        i += 1;
    }
    proof {
        if ids_view(ids@).contains(id.0@) {
            let j = choose|j: int| 0 <= j < ids_view(ids@).len() && ids_view(ids@)[j] == id.0@;
            assert(ids@[j].0@ == id.0@);
        }
    }
    false
}

/// Collapses exactly the hunks that a saved position lists as collapsed.
pub fn restore_collapsed(file: &mut ChangedFile, position: &DiffPosition)
    ensures
        final(file)@ == (crate::model::FileView {
            hunks: restored_hunks(old(file)@.hunks, ids_view(position.collapsed_hunks@)),
            ..old(file)@
        }),
{
    let ghost ids = ids_view(position.collapsed_hunks@);
    let ghost start = file@;
    let mut k: usize = 0;
    while k < file.hunks.len()
        invariant
            k <= file@.hunks.len(),
            file@.hunks.len() == start.hunks.len(),
            ids == ids_view(position.collapsed_hunks@),
            file@ == (crate::model::FileView { hunks: file@.hunks, ..start }),
            forall|j: int| 0 <= j < k ==> file@.hunks[j] == restored_hunks(start.hunks, ids)[j],
            forall|j: int| k <= j < file@.hunks.len() ==> file@.hunks[j] == start.hunks[j],
        decreases file.hunks.len() - k,
    {
        let collapse = contains_id(&position.collapsed_hunks, &file.hunks[k].id);
        let ghost before = file@.hunks;
        file.hunks[k].collapsed = collapse;
        assert(file@.hunks =~= before.update(k as int, restored_hunks(start.hunks, ids)[k as int]));
        k += 1;
    }
    assert(file@.hunks =~= restored_hunks(start.hunks, ids));
}

/// Restoring the collapsed hunks that a file's own position saved leaves the
/// file as it was, when its hunks' identities are distinct.
pub proof fn lemma_collapsed_round_trip(hunks: Seq<HunkView>)
    requires
        ids_distinct(hunks),
    ensures
        restored_hunks(hunks, collapsed_ids(hunks)) == hunks,
{
    lemma_collapsed_ids_members(hunks);
    assert(restored_hunks(hunks, collapsed_ids(hunks)) =~= hunks);
}

/// Two lists of hunks that differ at most in which hunks are folded, as the
/// hunks of a file do when it is loaded again.
pub open spec fn same_but_folding(a: Seq<HunkView>, b: Seq<HunkView>) -> bool {
    &&& a.len() == b.len()
    &&& forall|i: int| 0 <= i < a.len() ==> b[i] == HunkView { collapsed: b[i].collapsed, ..a[i] }
}

/// A reload keeps the Diff position: restoring the position saved for a row
/// into the file's hunks loaded again, however those are folded, folds the
/// hunks as they were and names the same row, when the hunks' identities are
/// distinct.
pub proof fn lemma_reload_keeps_position(
    hunks: Seq<HunkView>,
    reloaded: Seq<HunkView>,
    k: int,
    row: int,
)
    requires
        ids_distinct(hunks),
        same_but_folding(hunks, reloaded),
        holds_row(hunks, k, row),
    ensures
        restored_hunks(reloaded, collapsed_ids(hunks)) == hunks,
        row_of_position(
            restored_hunks(reloaded, collapsed_ids(hunks)),
            hunks[k].id,
            (row - rows_before(hunks, k)) as nat,
        ) == Some(row as nat),
{
    lemma_collapsed_ids_members(hunks);
    assert forall|i: int| 0 <= i < hunks.len() implies restored_hunks(
        reloaded,
        collapsed_ids(hunks),
    )[i] == hunks[i] by {
        assert(reloaded[i].id == hunks[i].id);
        assert(collapsed_ids(hunks).contains(hunks[i].id) == hunks[i].collapsed);
    }
    assert(restored_hunks(reloaded, collapsed_ids(hunks)) =~= hunks);
    lemma_position_round_trip(hunks, k, row);
}

proof fn lemma_collapsed_ids_members(hunks: Seq<HunkView>)
    requires
        ids_distinct(hunks),
    ensures
        forall|k: int| 0 <= k < hunks.len() ==> (collapsed_ids(hunks).contains(#[trigger] hunks[k].id)
            <==> hunks[k].collapsed),
    decreases hunks.len(),
{
    if hunks.len() > 0 {
        let rest = hunks.drop_last();
        assert(ids_distinct(rest));
        lemma_collapsed_ids_members(rest);
        lemma_collapsed_ids_come_from(rest);
        let n = hunks.len() - 1;
        assert forall|k: int| 0 <= k < hunks.len() implies (collapsed_ids(hunks).contains(
            #[trigger] hunks[k].id,
        ) <==> hunks[k].collapsed) by {
            if k < n {
                assert(rest[k] == hunks[k]);
                assert(hunks[k].id != hunks[n].id);
                if hunks.last().collapsed {
                    assert(collapsed_ids(hunks) == collapsed_ids(rest).push(hunks[n].id));
                    if collapsed_ids(hunks).contains(hunks[k].id) {
                        let i = choose|i: int|
                            0 <= i < collapsed_ids(hunks).len() && collapsed_ids(hunks)[i]
                                == hunks[k].id;
                        if i < collapsed_ids(rest).len() {
                            assert(collapsed_ids(rest)[i] == hunks[k].id);
                        }
                    }
                    if collapsed_ids(rest).contains(hunks[k].id) {
                        let i = choose|i: int|
                            0 <= i < collapsed_ids(rest).len() && collapsed_ids(rest)[i]
                                == hunks[k].id;
                        assert(collapsed_ids(hunks)[i] == hunks[k].id);
                    }
                }
            } else {
                if hunks.last().collapsed {
                    assert(collapsed_ids(hunks)[collapsed_ids(rest).len() as int] == hunks[k].id);
                } else {
                    if collapsed_ids(rest).contains(hunks[k].id) {
                        let i = choose|i: int|
                            0 <= i < collapsed_ids(rest).len() && collapsed_ids(rest)[i]
                                == hunks[k].id;
                        let j = choose|j: int| 0 <= j < rest.len() && rest[j].id == collapsed_ids(rest)[i];
                        assert(rest[j] == hunks[j]);
                    }
                }
            }
        }
    }
}

proof fn lemma_collapsed_ids_come_from(hunks: Seq<HunkView>)
    ensures
        forall|i: int| 0 <= i < collapsed_ids(hunks).len() ==> exists|j: int|
            0 <= j < hunks.len() && hunks[j].id == #[trigger] collapsed_ids(hunks)[i],
    decreases hunks.len(),
{
    if hunks.len() > 0 {
        let rest = hunks.drop_last();
        lemma_collapsed_ids_come_from(rest);
        assert forall|i: int| 0 <= i < collapsed_ids(hunks).len() implies exists|j: int|
            0 <= j < hunks.len() && hunks[j].id == #[trigger] collapsed_ids(hunks)[i] by {
            if i < collapsed_ids(rest).len() {
                assert(collapsed_ids(hunks)[i] == collapsed_ids(rest)[i]);
                let j = choose|j: int| 0 <= j < rest.len() && rest[j].id == collapsed_ids(rest)[i];
                assert(hunks[j] == rest[j]);
            } else {
                assert(hunks[hunks.len() - 1].id == collapsed_ids(hunks)[i]);
            }
        }
    }
}

/// The scroll offset restored from a saved one: at most the last row.
pub open spec fn restored_offset(saved: usize, rows: nat) -> nat {
    let max_offset: nat = if rows == 0 {
        0
    } else {
        (rows - 1) as nat
    };
    if saved < max_offset {
        saved as nat
    } else {
        max_offset
    }
}

/// The scroll offset to restore, limited to the last row of the file.
pub fn restore_scroll_offset(file: &ChangedFile, position: &DiffPosition) -> (r: usize)
    requires
        rows_fit(*file),
    ensures
        r == restored_offset(position.scroll_offset, row_count(file@.hunks)),
{
    let rows = diff_row_count(file);
    let max_offset = if rows == 0 {
        0
    } else {
        rows - 1
    };
    if position.scroll_offset < max_offset {
        position.scroll_offset
    } else {
        max_offset
    }
}

/// The hunks with hunk `k` folded when it was open and opened when it was
/// folded.
pub open spec fn flipped(hunks: Seq<HunkView>, k: int) -> Seq<HunkView> {
    hunks.update(k, HunkView { collapsed: !hunks[k].collapsed, ..hunks[k] })
}

proof fn lemma_rows_before_same_prefix(a: Seq<HunkView>, b: Seq<HunkView>, j: int)
    requires
        0 <= j,
        j <= a.len(),
        j <= b.len(),
        forall|i: int| 0 <= i < j ==> a[i] == b[i],
    ensures
        rows_before(a, j) == rows_before(b, j),
    decreases j,
{
    if j > 0 {
        lemma_rows_before_same_prefix(a, b, j - 1);
    }
}

/// Folds or unfolds the hunk that holds the selected row and gives the row
/// of that hunk's header, which the selection moves to; a row past the last
/// one changes nothing and gives none.
pub fn toggle_hunk_at(file: &mut ChangedFile, selected_row: usize) -> (r: Option<usize>)
    ensures
        r is None <==> selected_row >= row_count(old(file)@.hunks),
        r is None ==> *final(file) == *old(file),
        r matches Some(header) ==> exists|k: int|
            #![trigger holds_row(old(file)@.hunks, k, selected_row as int)]
            holds_row(old(file)@.hunks, k, selected_row as int) && header == rows_before(
                old(file)@.hunks,
                k,
            ) && final(file)@ == (crate::model::FileView {
                hunks: flipped(old(file)@.hunks, k),
                ..old(file)@
            }),
{
    let ghost start = file@;
    let found = hunk_at_row(file, selected_row);
    match found {
        None => None,
        Some(k) => {
            let mut header: usize = 0;
            let mut j: usize = 0;
            while j < k
                invariant
                    j <= k,
                    k < file@.hunks.len(),
                    holds_row(file@.hunks, k as int, selected_row as int),
                    header == rows_before(file@.hunks, j as int),
                decreases k - j,
            {
                proof {
                    lemma_rows_before_monotone(file@.hunks, j as int + 1, k as int);
                }
                header = header + height_of(&file.hunks[j]);
                j += 1;
            }
            let ghost before = file@.hunks;
            let folded = file.hunks[k].collapsed;
            file.hunks[k].collapsed = !folded;
            assert(file@.hunks =~= flipped(before, k as int));
            assert(holds_row(start.hunks, k as int, selected_row as int));
            Some(header)
        },
    }
}

/// Folding the hunk at a row and then folding again at the header row that
/// the first fold selected gives the hunks back: the header stays in the
/// same hunk, at the same row.
pub proof fn lemma_toggle_round_trip(hunks: Seq<HunkView>, k: int)
    requires
        0 <= k < hunks.len(),
    ensures
        rows_before(flipped(hunks, k), k) == rows_before(hunks, k),
        holds_row(flipped(hunks, k), k, rows_before(hunks, k) as int),
        flipped(flipped(hunks, k), k) == hunks,
{
    lemma_rows_before_same_prefix(hunks, flipped(hunks, k), k);
    assert(flipped(flipped(hunks, k), k) =~= hunks);
}

/// Whether a diff line adds, deletes or modifies text.
pub open spec fn is_change(row: RowView) -> bool {
    row.kind != crate::model::DiffRowKind::Context
}

/// The rows of all hunks with none collapsed.
pub open spec fn full_row_count(hunks: Seq<HunkView>) -> nat
    decreases hunks.len(),
{
    if hunks.len() == 0 {
        0
    } else {
        full_row_count(hunks.drop_last()) + 1 + hunks.last().rows.len()
    }
}

/// The last changed line in a hunk whose header is at `start`, counting every
/// line of the hunk; the header when none changed.
pub open spec fn latest_in_hunk(rows: Seq<RowView>, start: nat) -> nat
    decreases rows.len(),
{
    if rows.len() == 0 {
        start
    } else if is_change(rows.last()) {
        start + rows.len()
    } else {
        latest_in_hunk(rows.drop_last(), start)
    }
}

/// The row to select after a change to a file: the last changed line of the
/// last hunk, or that hunk's header when none of its lines changed, counting
/// every line as shown expanded; none without hunks.
pub open spec fn latest_change(hunks: Seq<HunkView>) -> Option<nat> {
    if hunks.len() == 0 {
        None
    } else {
        let k = hunks.len() - 1;
        Some(latest_in_hunk(hunks[k].rows, full_row_count(hunks.take(k))))
    }
}

/// Whether the rows of a file, none collapsed, can be counted in `usize`.
pub fn all_rows_fit(file: &ChangedFile) -> (r: bool)
    ensures
        r == (full_row_count(file@.hunks) <= usize::MAX),
{
    let mut total: usize = 0;
    let mut k: usize = 0;
    assert(file@.hunks.take(0) =~= Seq::<HunkView>::empty());
    while k < file.hunks.len()
        invariant
            k <= file@.hunks.len(),
            total == full_row_count(file@.hunks.take(k as int)),
        decreases file.hunks.len() - k,
    {
        assert(file@.hunks.take(k as int + 1).drop_last() =~= file@.hunks.take(k as int));
        let len = file.hunks[k].rows.len();
        if len >= usize::MAX - total {
            proof {
                lemma_full_count_prefix(file@.hunks, k as int + 1);
            }
            return false;
        }
        total = total + 1 + len;
        k += 1;
    }
    assert(file@.hunks.take(k as int) =~= file@.hunks);
    true
}

proof fn lemma_full_count_prefix(hunks: Seq<HunkView>, k: int)
    requires
        0 <= k <= hunks.len(),
    ensures
        full_row_count(hunks.take(k)) <= full_row_count(hunks),
    decreases hunks.len(),
{
    if k < hunks.len() {
        assert(hunks.drop_last().take(k) =~= hunks.take(k));
        lemma_full_count_prefix(hunks.drop_last(), k);
    } else {
        assert(hunks.take(k) =~= hunks);
    }
}

/// The row to select when following a change in a file.
pub fn latest_change_row(file: &ChangedFile) -> (r: Option<usize>)
    requires
        full_row_count(file@.hunks) <= usize::MAX,
    ensures
        r matches Some(row) ==> latest_change(file@.hunks) == Some(row as nat),
        r is None ==> latest_change(file@.hunks) is None,
{
    let n = file.hunks.len();
    if n == 0 {
        return None;
    }
    let mut offset: usize = 0;
    let mut k: usize = 0;
    assert(file@.hunks.take(0) =~= Seq::<HunkView>::empty());
    while k < n - 1
        invariant
            n == file@.hunks.len(),
            k <= n - 1,
            full_row_count(file@.hunks) <= usize::MAX,
            offset == full_row_count(file@.hunks.take(k as int)),
        decreases n - 1 - k,
    {
        assert(file@.hunks.take(k as int + 1).drop_last() =~= file@.hunks.take(k as int));
        proof {
            lemma_full_count_prefix(file@.hunks, k as int + 1);
        }
        offset = offset + 1 + file.hunks[k].rows.len();
        k += 1;
    }
    proof {
        lemma_full_count_prefix(file@.hunks, n as int);
        assert(file@.hunks.take(n as int).drop_last() =~= file@.hunks.take(n - 1));
    }
    let last = &file.hunks[n - 1];
    let ghost rows = file@.hunks[n - 1].rows;
    let mut row: usize = offset;
    let mut i: usize = 0;
    while i < last.rows.len()
        invariant
            rows == rows_view(last.rows@),
            i <= rows.len(),
            offset + rows.len() <= usize::MAX,
            row == latest_in_hunk(rows.take(i as int), offset as nat),
        decreases last.rows.len() - i,
    {
        assert(rows.take(i as int + 1).drop_last() =~= rows.take(i as int));
        if last.rows[i].kind != crate::model::DiffRowKind::Context {
            row = offset + i + 1;
        }
        i += 1;
    }
    assert(rows.take(rows.len() as int) =~= rows);
    Some(row)
}

proof fn lemma_rows_within_full_prefix(hunks: Seq<HunkView>, k: int)
    requires
        0 <= k <= hunks.len(),
    ensures
        rows_before(hunks, k) <= full_row_count(hunks.take(k)),
    decreases k,
{
    if k > 0 {
        lemma_rows_within_full_prefix(hunks, k - 1);
        assert(hunks.take(k).drop_last() =~= hunks.take(k - 1));
    }
}

/// However its hunks are folded, a file shows at most as many rows as with
/// none folded.
pub proof fn lemma_row_count_within_full(hunks: Seq<HunkView>)
    ensures
        row_count(hunks) <= full_row_count(hunks),
{
    lemma_rows_within_full_prefix(hunks, hunks.len() as int);
    assert(hunks.take(hunks.len() as int) =~= hunks);
}

/// Folding hunks changes no line: with none folded, the rows stay the same
/// in number.
pub proof fn lemma_full_count_restored(hunks: Seq<HunkView>, collapsed: Seq<Seq<char>>)
    ensures
        full_row_count(restored_hunks(hunks, collapsed)) == full_row_count(hunks),
    decreases hunks.len(),
{
    if hunks.len() > 0 {
        assert(restored_hunks(hunks, collapsed).drop_last() =~= restored_hunks(
            hunks.drop_last(),
            collapsed,
        ));
        lemma_full_count_restored(hunks.drop_last(), collapsed);
    }
}

} // verus!
