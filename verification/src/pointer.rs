//! Mouse positions: which panel a click lands in, and which Diff row lies
//! under a screen line.
use vstd::prelude::*;

use crate::diff_rows::{lemma_rows_before_monotone, row_count, rows_before, rows_fit};
use crate::geometry::{content_width, row_height, row_lines, row_text_fits, text_columns};
use crate::model::{ChangedFile, DiffLayout, HunkView, RowView};
use crate::navigation::Focus;

verus! {

/// A terminal cell: column `x`, line `y`.
#[derive(Clone, Copy, Debug, PartialEq, Eq)]
pub struct Spot {
    pub x: u16,
    pub y: u16,
}

/// A rectangle of terminal cells.
#[derive(Clone, Copy, Debug, PartialEq, Eq)]
pub struct Area {
    pub x: u16,
    pub y: u16,
    pub width: u16,
    pub height: u16,
}

impl Area {
    /// Whether the area holds a cell; its right and bottom edges saturate.
    pub open spec fn holds(self, p: Spot) -> bool {
        &&& p.x >= self.x
        &&& p.x < self.x.saturating_add(self.width)
        &&& p.y >= self.y
        &&& p.y < self.y.saturating_add(self.height)
    }

    /// Whether the area holds a cell.
    pub fn contains(&self, p: Spot) -> (r: bool)
        ensures
            r == self.holds(p),
    {
        p.x >= self.x && p.x < self.x.saturating_add(self.width) && p.y >= self.y && p.y
            < self.y.saturating_add(self.height)
    }
}

/// The panel a click at `p` focuses: the first panel only while it is
/// shown, then the Files panel, then the Diff panel; none outside them.
pub open spec fn focus_at(p: Spot, areas: [Area; 3], show_worktrees: bool) -> Option<Focus> {
    if show_worktrees && areas[0].holds(p) {
        Some(Focus::Worktrees)
    } else if areas[1].holds(p) {
        Some(Focus::Files)
    } else if areas[2].holds(p) {
        Some(Focus::Diff)
    } else {
        None
    }
}

/// The panel that a click focuses.
pub fn mouse_focus(position: Spot, areas: [Area; 3], show_worktrees: bool) -> (r: Option<Focus>)
    ensures
        r == focus_at(position, areas, show_worktrees),
{
    if show_worktrees && areas[0].contains(position) {
        Some(Focus::Worktrees)
    } else if areas[1].contains(position) {
        Some(Focus::Files)
    } else if areas[2].contains(position) {
        Some(Focus::Diff)
    } else {
        None
    }
}

/// The kinds of mouse events the navigator answers.
#[derive(Clone, Copy, Debug, PartialEq, Eq, Structural)]
pub enum MouseKind {
    ScrollUp,
    ScrollDown,
    LeftPress,
    Other,
}

/// What a mouse event asks of the navigator.
#[derive(Clone, Copy, Debug, PartialEq, Eq, Structural)]
pub enum MouseAction {
    Ignore,
    /// Focus a panel and move its selection by `delta` rows.
    Scroll { focus: Focus, delta: isize },
    /// Focus the first panel or the Files panel and pick the clicked row.
    PickRow(Focus),
    /// Focus the Diff panel; pick the clicked row only when the panel
    /// already showed its rows.
    PickDiffRow { rows_shown: bool },
}

/// The rows one turn of the mouse wheel moves a selection.
pub const SCROLL_ROWS: isize = 3;

/// What a mouse event does: nothing while a dialog or a search is open;
/// the wheel focuses the panel under the pointer and moves its selection by
/// three rows; a left press focuses the panel under it and picks a row. The
/// Diff panel shows its rows while expanded or focused.
pub open spec fn mouse_outcome(
    kind: MouseKind,
    position: Spot,
    areas: [Area; 3],
    show_worktrees: bool,
    blocked: bool,
    expanded: bool,
    focus: Focus,
) -> MouseAction {
    if blocked {
        MouseAction::Ignore
    } else {
        match kind {
            MouseKind::ScrollUp | MouseKind::ScrollDown => match focus_at(
                position,
                areas,
                show_worktrees,
            ) {
                Some(f) => MouseAction::Scroll {
                    focus: f,
                    delta: if kind is ScrollUp {
                        (-SCROLL_ROWS) as isize
                    } else {
                        SCROLL_ROWS
                    },
                },
                None => MouseAction::Ignore,
            },
            MouseKind::LeftPress => match focus_at(position, areas, show_worktrees) {
                Some(Focus::Diff) => MouseAction::PickDiffRow {
                    rows_shown: expanded || focus == Focus::Diff,
                },
                Some(f) => MouseAction::PickRow(f),
                None => MouseAction::Ignore,
            },
            MouseKind::Other => MouseAction::Ignore,
        }
    }
}

/// Decides what a mouse event does, from where it happens, which panels are
/// shown, whether a dialog or search is open, and the Diff panel's state.
pub fn mouse_action(
    kind: MouseKind,
    position: Spot,
    areas: [Area; 3],
    show_worktrees: bool,
    blocked: bool,
    expanded: bool,
    focus: Focus,
) -> (r: MouseAction)
    ensures
        r == mouse_outcome(kind, position, areas, show_worktrees, blocked, expanded, focus),
{
    if blocked {
        return MouseAction::Ignore;
    }
    match kind {
        MouseKind::ScrollUp | MouseKind::ScrollDown => match mouse_focus(
            position,
            areas,
            show_worktrees,
        ) {
            Some(f) => {
                let delta = match kind {
                    MouseKind::ScrollUp => -SCROLL_ROWS,
                    _ => SCROLL_ROWS,
                };
                MouseAction::Scroll { focus: f, delta }
            },
            None => MouseAction::Ignore,
        },
        MouseKind::LeftPress => match mouse_focus(position, areas, show_worktrees) {
            Some(Focus::Diff) => MouseAction::PickDiffRow {
                rows_shown: expanded || focus == Focus::Diff,
            },
            Some(f) => MouseAction::PickRow(f),
            None => MouseAction::Ignore,
        },
        MouseKind::Other => MouseAction::Ignore,
    }
}

/// The line of a list panel's content under a click: lines count from
/// below the top border; none on the border or above it.
pub fn content_line(position: Spot, area: Area) -> (r: Option<usize>)
    ensures
        r matches Some(l) ==> position.y >= area.y.saturating_add(1) && l == position.y
            - area.y.saturating_add(1),
        r is None <==> position.y < area.y.saturating_add(1),
{
    let top = area.y.saturating_add(1);
    if position.y < top {
        None
    } else {
        Some((position.y - top) as usize)
    }
}

/// The item of a list panel under line `y`: lines below the top border,
/// `item_height` lines per item, counted from the first item shown.
pub open spec fn list_item_at(y: u16, area: Area, item_height: u16, first_shown: usize) -> Option<int> {
    let top = area.y.saturating_add(1);
    if y < top {
        None
    } else {
        Some((y - top) / (item_height as int) + first_shown)
    }
}

/// The item of a list panel under a click: the Worktrees panel gives each
/// item two lines, the Files panel one; `first_shown` is the list's scroll
/// offset.
pub fn list_row(position: Spot, area: Area, focus: Focus, first_shown: usize) -> (r: Option<usize>)
    requires
        first_shown + u16::MAX <= usize::MAX,
    ensures
        r matches Some(i) ==> list_item_at(
            position.y,
            area,
            if focus == Focus::Worktrees {
                2
            } else {
                1
            },
            first_shown,
        ) == Some(i as int),
        r is None ==> list_item_at(
            position.y,
            area,
            if focus == Focus::Worktrees {
                2
            } else {
                1
            },
            first_shown,
        ) is None,
{
    let top = area.y.saturating_add(1);
    if position.y < top {
        return None;
    }
    let line = position.y - top;
    let item_height: u16 = if focus == Focus::Worktrees {
        2
    } else {
        1
    };
    Some((line / item_height) as usize + first_shown)
}

/// `u16` addition that stops at the largest value.
pub open spec fn add_lines(a: u16, b: u16) -> u16 {
    a.saturating_add(b)
}

/// The lines that each shown Diff row takes, in order: a hunk's header takes
/// one, and its rows theirs unless it is collapsed.
pub open spec fn hunk_lines(h: HunkView, layout: DiffLayout, wrap: bool, width: usize) -> Seq<u16> {
    seq![1u16] + if h.collapsed {
        Seq::<u16>::empty()
    } else {
        h.rows.map_values(|r: RowView| row_lines(r, layout, wrap, width))
    }
}

/// The lines of the shown rows of some hunks.
pub open spec fn shown_lines(hunks: Seq<HunkView>, layout: DiffLayout, wrap: bool, width: usize) -> Seq<
    u16,
>
    decreases hunks.len(),
{
    if hunks.len() == 0 {
        seq![]
    } else {
        shown_lines(hunks.drop_last(), layout, wrap, width) + hunk_lines(
            hunks.last(),
            layout,
            wrap,
            width,
        )
    }
}

/// The line below the first `n` rows, drawing from row `offset` on and
/// starting at line `top`.
pub open spec fn line_after(heights: Seq<u16>, offset: nat, top: u16, n: int) -> u16
    decreases n,
{
    if n <= 0 {
        top
    } else {
        let before = line_after(heights, offset, top, n - 1);
        if n - 1 >= offset {
            add_lines(before, heights[n - 1])
        } else {
            before
        }
    }
}

/// The first of the first `n` rows drawn over line `y`.
pub open spec fn first_over(heights: Seq<u16>, offset: nat, top: u16, y: u16, n: int) -> Option<nat>
    decreases n,
{
    if n <= 0 {
        None
    } else {
        match first_over(heights, offset, top, y, n - 1) {
            Some(i) => Some(i),
            None => if n - 1 >= offset && y < line_after(heights, offset, top, n) {
                Some((n - 1) as nat)
            } else {
                None
            },
        }
    }
}

/// The Diff row under a click: rows are drawn from the scroll offset on,
/// three lines below the panel's top (border and column headings), each as
/// tall as its text; none above them or below the last row.
pub open spec fn row_under(
    hunks: Seq<HunkView>,
    layout: DiffLayout,
    wrap: bool,
    offset: usize,
    p: Spot,
    area: Area,
) -> Option<nat> {
    let top = area.y.saturating_add(3);
    if p.y < top {
        None
    } else {
        let heights = shown_lines(hunks, layout, wrap, text_columns(area.width, layout) as usize);
        first_over(heights, offset as nat, top, p.y, heights.len() as int)
    }
}

/// The rows of shown hunks have text short enough to measure.
pub open spec fn shown_texts_fit(hunks: Seq<HunkView>) -> bool {
    forall|k: int, j: int|
        0 <= k < hunks.len() && !hunks[k].collapsed && 0 <= j < hunks[k].rows.len() ==> row_text_fits(
            #[trigger] hunks[k].rows[j],
        )
}

/// Whether every shown row of a file can be measured.
pub fn diff_texts_fit(file: &ChangedFile) -> (r: bool)
    ensures
        r == shown_texts_fit(file@.hunks),
{
    let mut k: usize = 0;
    while k < file.hunks.len()
        invariant
            k <= file@.hunks.len(),
            forall|a: int, j: int|
                0 <= a < k && !file@.hunks[a].collapsed && 0 <= j < file@.hunks[a].rows.len()
                    ==> row_text_fits(#[trigger] file@.hunks[a].rows[j]),
        decreases file.hunks.len() - k,
    {
        let hunk = &file.hunks[k];
        if !hunk.collapsed {
            let mut j: usize = 0;
            while j < hunk.rows.len()
                invariant
                    k < file@.hunks.len(),
                    *hunk == file.hunks@[k as int],
                    !hunk.collapsed,
                    j <= hunk.rows@.len(),
                    forall|i: int| 0 <= i < j ==> row_text_fits(#[trigger] file@.hunks[k as int].rows[i]),
                decreases hunk.rows.len() - j,
            {
                let row = &hunk.rows[j];
                let old_ok = match &row.old_text {
                    Some(t) => t.as_str().unicode_len() < usize::MAX / 8,
                    None => true,
                };
                let new_ok = match &row.new_text {
                    Some(t) => t.as_str().unicode_len() < usize::MAX / 8,
                    None => true,
                };
                assert(file@.hunks[k as int].rows[j as int] == row@);
                if !old_ok || !new_ok {
                    return false;
                }
                j += 1;
            }
        }
        k += 1;
    }
    true
}

proof fn lemma_prefix_lines(a: Seq<u16>, b: Seq<u16>, offset: nat, top: u16, y: u16, n: int)
    requires
        0 <= n <= a.len(),
        a.len() <= b.len(),
        a == b.take(a.len() as int),
    ensures
        line_after(a, offset, top, n) == line_after(b, offset, top, n),
        first_over(a, offset, top, y, n) == first_over(b, offset, top, y, n),
    decreases n,
{
    if n > 0 {
        lemma_prefix_lines(a, b, offset, top, y, n - 1);
        assert(a[n - 1] == b[n - 1]);
    }
}

proof fn lemma_first_over_stays(heights: Seq<u16>, offset: nat, top: u16, y: u16, m: int, n: int)
    requires
        0 <= m <= n,
        first_over(heights, offset, top, y, m) is Some,
    ensures
        first_over(heights, offset, top, y, n) == first_over(heights, offset, top, y, m),
    decreases n - m,
{
    if m < n {
        lemma_first_over_stays(heights, offset, top, y, m, n - 1);
    }
}

proof fn lemma_shown_lines_len(hunks: Seq<HunkView>, layout: DiffLayout, wrap: bool, width: usize, k: int)
    requires
        0 <= k <= hunks.len(),
    ensures
        shown_lines(hunks.take(k), layout, wrap, width).len() == rows_before(hunks, k),
    decreases k,
{
    if k > 0 {
        assert(hunks.take(k).drop_last() =~= hunks.take(k - 1));
        lemma_shown_lines_len(hunks, layout, wrap, width, k - 1);
    }
}

/// The Diff row under a click, for a file whose rows can be counted and
/// measured.
#[verifier::rlimit(40)]
#[verifier::spinoff_prover]
pub fn row_at_position(
    file: &ChangedFile,
    layout: DiffLayout,
    line_wrap: bool,
    offset: usize,
    position: Spot,
    area: Area,
) -> (r: Option<usize>)
    requires
        rows_fit(*file),
        shown_texts_fit(file@.hunks),
    ensures
        r matches Some(i) ==> row_under(file@.hunks, layout, line_wrap, offset, position, area) == Some(
            i as nat,
        ),
        r is None ==> row_under(file@.hunks, layout, line_wrap, offset, position, area) is None,
{
    let top = area.y.saturating_add(3);
    if position.y < top {
        return None;
    }
    let width = content_width(area.width, layout);
    let ghost hunks = file@.hunks;
    let ghost all = shown_lines(hunks, layout, line_wrap, width);
    let ghost off = offset as nat;
    assert(all == shown_lines(hunks, layout, line_wrap, text_columns(area.width, layout) as usize));
    let mut y: u16 = top;
    let mut global_row: usize = 0;
    let ghost mut done: Seq<u16> = seq![];
    let mut k: usize = 0;
    assert(hunks.take(0) =~= Seq::<HunkView>::empty());
    while k < file.hunks.len()
        invariant
            hunks == file@.hunks,
            rows_fit(*file),
            shown_texts_fit(hunks),
            width == text_columns(area.width, layout),
            all == shown_lines(hunks, layout, line_wrap, width),
            off == offset as nat,
            top == area.y.saturating_add(3),
            position.y >= top,
            k <= hunks.len(),
            done == shown_lines(hunks.take(k as int), layout, line_wrap, width),
            global_row == done.len(),
            y == line_after(done, off, top, done.len() as int),
            first_over(done, off, top, position.y, done.len() as int) is None,
        decreases file.hunks.len() - k,
    {
        proof {
            assert(hunks.take(k as int + 1).drop_last() =~= hunks.take(k as int));
            assert(hunks.take(k as int + 1).last() == hunks[k as int]);
            lemma_shown_lines_len(hunks, layout, line_wrap, width, k as int);
            lemma_shown_lines_len(hunks, layout, line_wrap, width, k as int + 1);
            lemma_rows_before_monotone(hunks, k as int + 1, hunks.len() as int);
        }
        let hunk = &file.hunks[k];
        let ghost h = hunks[k as int];
        let ghost next = shown_lines(hunks.take(k as int + 1), layout, line_wrap, width);
        assert(next == done + hunk_lines(h, layout, line_wrap, width));
        let ghost start = done;
        // header row
        proof {
            done = done.push(1u16);
            assert(done =~= next.take(done.len() as int));
        }
        if global_row >= offset {
            let below = y.saturating_add(1);
            if position.y < below {
                proof {
                    assert(done.drop_last() =~= start);
                    lemma_prefix_lines(start, done, off, top, position.y, start.len() as int);
                    assert(first_over(done, off, top, position.y, done.len() as int) == Some(
                        global_row as nat,
                    ));
                    lemma_all_lines(hunks, layout, line_wrap, width, k as int + 1);
                    lemma_prefix_lines(done, next, off, top, position.y, done.len() as int);
                    lemma_prefix_lines(next, all, off, top, position.y, done.len() as int);
                    lemma_first_over_stays(all, off, top, position.y, done.len() as int, all.len() as int);
                }
                return Some(global_row);
            }
            y = below;
        }
        proof {
            assert(done.drop_last() =~= start);
            lemma_prefix_lines(start, done, off, top, position.y, start.len() as int);
        }
        global_row += 1;
        if !hunk.collapsed {
            let mut j: usize = 0;
            while j < hunk.rows.len()
                invariant
                    hunks == file@.hunks,
                    k < hunks.len(),
                    h == hunks[k as int],
                    *hunk == file.hunks@[k as int],
                    !h.collapsed,
                    shown_texts_fit(hunks),
                    rows_fit(*file),
                    width == text_columns(area.width, layout),
                    all == shown_lines(hunks, layout, line_wrap, width),
                    off == offset as nat,
                    top == area.y.saturating_add(3),
                    position.y >= top,
                    next == shown_lines(hunks.take(k as int + 1), layout, line_wrap, width),
                    next == start + hunk_lines(h, layout, line_wrap, width),
                    next.len() <= usize::MAX,
                    j <= h.rows.len(),
                    done == next.take(start.len() + 1 + j),
                    global_row == done.len(),
                    y == line_after(done, off, top, done.len() as int),
                    first_over(done, off, top, position.y, done.len() as int) is None,
                decreases hunk.rows.len() - j,
            {
                let row = &hunk.rows[j];
                assert(h.rows[j as int] == row@);
                assert(row_text_fits(hunks[k as int].rows[j as int]));
                let height = row_height(row, layout, line_wrap, width);
                let ghost before = done;
                proof {
                    assert(next[start.len() + 1 + j] == height);
                    done = next.take(start.len() + 1 + j + 1);
                    assert(done.drop_last() =~= before);
                    assert(done.last() == height);
                    lemma_prefix_lines(before, done, off, top, position.y, before.len() as int);
                }
                if global_row >= offset {
                    let below = y.saturating_add(height);
                    if position.y < below {
                        proof {
                            assert(first_over(done, off, top, position.y, done.len() as int) == Some(
                                global_row as nat,
                            ));
                            lemma_all_lines(hunks, layout, line_wrap, width, k as int + 1);
                            lemma_prefix_lines(next, all, off, top, position.y, done.len() as int);
                            lemma_prefix_lines(done, next, off, top, position.y, done.len() as int);
                            lemma_first_over_stays(
                                all,
                                off,
                                top,
                                position.y,
                                done.len() as int,
                                all.len() as int,
                            );
                        }
                        return Some(global_row);
                    }
                    y = below;
                }
                global_row += 1;
                j += 1;
            }
            proof {
                assert(done =~= next);
            }
        } else {
            proof {
                assert(done =~= next);
            }
        }
        k += 1;
    }
    proof {
        assert(hunks.take(hunks.len() as int) =~= hunks);
    }
    None
}

proof fn lemma_all_lines(hunks: Seq<HunkView>, layout: DiffLayout, wrap: bool, width: usize, k: int)
    requires
        0 <= k <= hunks.len(),
    ensures
        shown_lines(hunks.take(k), layout, wrap, width) == shown_lines(hunks, layout, wrap, width).take(
            shown_lines(hunks.take(k), layout, wrap, width).len() as int,
        ),
        shown_lines(hunks.take(k), layout, wrap, width).len() <= shown_lines(hunks, layout, wrap, width).len(),
    decreases hunks.len() - k,
{
    if k < hunks.len() {
        lemma_all_lines(hunks, layout, wrap, width, k + 1);
        let a = shown_lines(hunks.take(k), layout, wrap, width);
        let b = shown_lines(hunks.take(k + 1), layout, wrap, width);
        assert(hunks.take(k + 1).drop_last() =~= hunks.take(k));
        assert(b == a + hunk_lines(hunks.take(k + 1).last(), layout, wrap, width));
        assert(a =~= b.take(a.len() as int));
    } else {
        assert(hunks.take(k) =~= hunks);
        let a = shown_lines(hunks, layout, wrap, width);
        assert(a.take(a.len() as int) =~= a);
    }
}

proof fn lemma_first_over_range(heights: Seq<u16>, offset: nat, top: u16, y: u16, n: int)
    ensures
        first_over(heights, offset, top, y, n) matches Some(i) ==> offset <= i < n,
    decreases n,
{
    if n > 0 {
        lemma_first_over_range(heights, offset, top, y, n - 1);
    }
}

/// A click lands on a row that is drawn: one at or after the scroll offset
/// and before the end of the Diff rows.
pub proof fn lemma_click_lands_on_a_drawn_row(
    hunks: Seq<HunkView>,
    layout: DiffLayout,
    wrap: bool,
    offset: usize,
    p: Spot,
    area: Area,
)
    ensures
        row_under(hunks, layout, wrap, offset, p, area) matches Some(i) ==> offset <= i && i < row_count(
            hunks,
        ),
{
    let width = text_columns(area.width, layout) as usize;
    let heights = shown_lines(hunks, layout, wrap, width);
    lemma_first_over_range(heights, offset as nat, area.y.saturating_add(3), p.y, heights.len() as int);
    lemma_shown_lines_len(hunks, layout, wrap, width, hunks.len() as int);
    assert(hunks.take(hunks.len() as int) =~= hunks);
}

} // verus!
