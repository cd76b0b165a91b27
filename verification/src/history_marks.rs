//! How the History panel marks its graph: which nodes belong to the branch
//! comparison, which stand for the base branch, and the tone of each cell.
use vstd::prelude::*;

use crate::history_rows::{shapes, HistoryRow, RowShape};
use crate::model::{texts, ChangeMode, Commit, HistorySelection};
use crate::navigation::{moved_position, moved_selection};
use crate::palette::Hue;
use crate::text::chars_of;

verus! {

/// One drawn cell of a graph line; nodes are drawn bold.
#[derive(Clone, Copy, Debug, PartialEq, Eq, Structural)]
pub struct GraphCell {
    pub symbol: char,
    pub tone: Hue,
    pub node: bool,
}

/// The commit node of a graph line.
pub open spec fn is_node(c: char) -> bool {
    c == '●'
}

/// The cell drawn for a graph character: a node takes the marker in place of
/// its dot and the marker's tone where both are given, else Magenta when it
/// lies in the branch comparison and Cyan otherwise; other characters are
/// drawn dark gray as they are.
pub open spec fn cell_for(c: char, active: bool, marker: Option<char>, marker_tone: Option<Hue>) -> GraphCell {
    if is_node(c) {
        GraphCell {
            symbol: match marker {
                Some(m) => m,
                None => c,
            },
            tone: if marker is Some && marker_tone is Some {
                marker_tone.unwrap()
            } else if active {
                Hue::Magenta
            } else {
                Hue::Cyan
            },
            node: true,
        }
    } else {
        GraphCell { symbol: c, tone: Hue::DarkGray, node: false }
    }
}

/// The blanks that pad a graph to four columns.
pub open spec fn graph_padding(len: nat) -> nat {
    if len < 4 {
        (4 - len) as nat
    } else {
        0
    }
}

/// The cells of a graph line and the blanks after it.
pub fn graph_cells(graph: &str, active: bool, marker: Option<char>, marker_tone: Option<Hue>) -> (r: (
    Vec<GraphCell>,
    usize,
))
    ensures
        r.0@.len() == graph@.len(),
        forall|i: int| 0 <= i < graph@.len() ==> #[trigger] r.0@[i] == cell_for(graph@[i], active, marker, marker_tone),
        r.1 == graph_padding(graph@.len()),
{
    let chars = chars_of(graph);
    let mut cells: Vec<GraphCell> = Vec::new();
    let mut i: usize = 0;
    while i < chars.len()
        invariant
            i <= chars@.len(),
            chars@ == graph@,
            cells@.len() == i,
            forall|k: int| 0 <= k < i ==> #[trigger] cells@[k] == cell_for(graph@[k], active, marker, marker_tone),
        decreases chars.len() - i,
    {
        let c = chars[i];
        let cell = if c == '●' {
            let tone = match (marker, marker_tone) {
                (Some(_), Some(t)) => t,
                _ => if active {
                    Hue::Magenta
                } else {
                    Hue::Cyan
                },
            };
            let symbol = match marker {
                Some(m) => m,
                None => c,
            };
            GraphCell { symbol, tone, node: true }
        } else {
            GraphCell { symbol: c, tone: Hue::DarkGray, node: false }
        };
        let ghost before = cells@;
        cells.push(cell);
        assert(cells@.len() == before.len() + 1);
        assert(cell == cell_for(graph@[i as int], active, marker, marker_tone));
        i += 1;
    }
    let pad = if chars.len() < 4 {
        4 - chars.len()
    } else {
        0
    };
    (cells, pad)
}

/// The node of a base-branch commit: a filled square for the local base, an
/// open square for the remote one, none for other commits.
pub open spec fn base_marker(local: Option<Seq<char>>, remote: Option<Seq<char>>, hash: Seq<char>) -> Option<
    char,
> {
    if local == Some(hash) {
        Some('■')
    } else if remote == Some(hash) {
        Some('□')
    } else {
        None
    }
}

fn same_text(a: Option<&str>, b: &str) -> (r: bool)
    ensures
        r == (match a {
            Some(t) => t@ == b@,
            None => false,
        }),
{
    match a {
        Some(t) => {
            let x = chars_of(t);
            let y = chars_of(b);
            crate::text::chars_eq(&x, &y)
        },
        None => false,
    }
}

/// The node drawn for a commit of the base branch.
pub fn base_node(local_base: Option<&str>, remote_base: Option<&str>, hash: &str) -> (r: Option<char>)
    ensures
        r == base_marker(
            match local_base {
                Some(t) => Some(t@),
                None => None,
            },
            match remote_base {
                Some(t) => Some(t@),
                None => None,
            },
            hash@,
        ),
{
    if same_text(local_base, hash) {
        Some('■')
    } else if same_text(remote_base, hash) {
        Some('□')
    } else {
        None
    }
}

/// A commit lies in the branch comparison when the Branch mode is on and
/// the commit is one of those between the selection and the base.
pub fn commit_is_in_branch_diff(mode: ChangeMode, range_commits: &Vec<String>, hash: &str) -> (r: bool)
    ensures
        r == (mode == ChangeMode::Branch && texts(range_commits@).contains(hash@)),
{
    if mode != ChangeMode::Branch {
        return false;
    }
    let target = chars_of(hash);
    let mut i: usize = 0;
    while i < range_commits.len()
        invariant
            i <= range_commits@.len(),
            mode == ChangeMode::Branch,
            target@ == hash@,
            forall|k: int| 0 <= k < i ==> range_commits@[k]@ != hash@,
        decreases range_commits.len() - i,
    {
        let candidate = chars_of(range_commits[i].as_str());
        if crate::text::chars_eq(&candidate, &target) {
            assert(texts(range_commits@)[i as int] == hash@);
            assert(texts(range_commits@).len() == range_commits@.len());
            assert(texts(range_commits@).contains(hash@));
            return true;
        }
        i += 1;
    }
    assert(!texts(range_commits@).contains(hash@)) by {
        if texts(range_commits@).contains(hash@) {
            let k = choose|k: int| 0 <= k < texts(range_commits@).len() && texts(range_commits@)[k] == hash@;
            assert(range_commits@[k]@ == hash@);
        }
    }
    false
}

/// The WIP entry lies in the branch comparison when the Branch mode is on,
/// WIP is selected and some commit lies between it and the base.
pub fn wip_is_in_branch_diff(
    mode: ChangeMode,
    selection: Option<&HistorySelection>,
    range_commits: &Vec<String>,
) -> (r: bool)
    ensures
        r == (mode == ChangeMode::Branch && (selection matches Some(HistorySelection::Wip))
            && range_commits@.len() > 0),
{
    let wip = match selection {
        Some(HistorySelection::Wip) => true,
        _ => false,
    };
    mode == ChangeMode::Branch && wip && range_commits.len() > 0
}

/// The history entry of a shown row: WIP is entry 0 and commit `i` is entry
/// `i + 1`; graph lines and branch labels are no entry.
pub open spec fn entry_of(row: RowShape) -> Option<nat> {
    match row {
        RowShape::Wip(_) => Some(0),
        RowShape::Commit(i) => Some(i + 1),
        _ => None,
    }
}

/// The history entry under the `visible_row`-th shown line of a list
/// scrolled by `offset` rows.
pub fn list_index(rows: &Vec<HistoryRow>, visible_row: usize, offset: usize) -> (r: Option<usize>)
    requires
        visible_row + offset <= usize::MAX,
        forall|k: int|
            0 <= k < rows@.len() ==> (#[trigger] rows@[k] matches HistoryRow::Commit { index }
                ==> index < usize::MAX),
    ensures
        r matches Some(e) ==> visible_row + offset < rows@.len() && entry_of(
            shapes(rows@)[visible_row + offset],
        ) == Some(e as nat),
        r is None ==> visible_row + offset >= rows@.len() || entry_of(
            shapes(rows@)[visible_row + offset],
        ) is None,
{
    let at = visible_row + offset;
    if at >= rows.len() {
        return None;
    }
    match &rows[at] {
        HistoryRow::Wip { .. } => Some(0),
        HistoryRow::Commit { index } => Some(*index + 1),
        _ => None,
    }
}

/// What a branch comparison of the history is made for: only in Branch
/// mode, with the History panel shown and an entry selected; the WIP entry
/// compares `HEAD`, a commit its hash. The flag tells whether a commit is
/// selected.
pub open spec fn range_target_of(
    mode: ChangeMode,
    history_active: bool,
    selection: Option<HistorySelection>,
) -> Option<(Seq<char>, bool)> {
    if mode != ChangeMode::Branch || !history_active {
        None
    } else {
        match selection {
            None => None,
            Some(HistorySelection::Wip) => Some(("HEAD"@, false)),
            Some(HistorySelection::Commit { hash }) => Some((hash@, true)),
        }
    }
}

/// The revision a branch comparison of the history is made for.
pub fn range_target(
    mode: ChangeMode,
    history_active: bool,
    selection: Option<&HistorySelection>,
) -> (r: Option<(String, bool)>)
    ensures
        match range_target_of(mode, history_active, match selection {
            Some(x) => Some(*x),
            None => None,
        }) {
            Some((t, c)) => r matches Some((s, d)) && s@ == t && d == c,
            None => r is None,
        },
{
    if mode != ChangeMode::Branch || !history_active {
        return None;
    }
    match selection {
        None => None,
        Some(HistorySelection::Wip) => {
            proof {
                reveal_strlit("HEAD");
            }
            Some((crate::text::owned("HEAD"), false))
        },
        Some(HistorySelection::Commit { hash }) => Some((crate::text::owned(hash.as_str()), true)),
    }
}

/// The first of the first `n` rows that shows entry `e`.
pub open spec fn first_row_of_entry(rows: Seq<RowShape>, e: nat, n: int) -> Option<nat>
    decreases n,
{
    if n <= 0 {
        None
    } else {
        match first_row_of_entry(rows, e, n - 1) {
            Some(i) => Some(i),
            None => if entry_of(rows[n - 1]) == Some(e) {
                Some((n - 1) as nat)
            } else {
                None
            },
        }
    }
}

proof fn lemma_first_row_of_entry_stays(rows: Seq<RowShape>, e: nat, m: int, n: int)
    requires
        0 <= m <= n,
        first_row_of_entry(rows, e, m) is Some,
    ensures
        first_row_of_entry(rows, e, n) == first_row_of_entry(rows, e, m),
    decreases n - m,
{
    if m < n {
        lemma_first_row_of_entry_stays(rows, e, m, n - 1);
    }
}

/// The shown row that the History list highlights for an entry.
pub fn row_of_entry(rows: &Vec<HistoryRow>, entry: usize) -> (r: Option<usize>)
    ensures
        r matches Some(i) ==> first_row_of_entry(shapes(rows@), entry as nat, rows@.len() as int)
            == Some(i as nat),
        r is None ==> first_row_of_entry(shapes(rows@), entry as nat, rows@.len() as int) is None,
{
    let ghost sh = shapes(rows@);
    let mut i: usize = 0;
    while i < rows.len()
        invariant
            i <= rows@.len(),
            sh == shapes(rows@),
            first_row_of_entry(sh, entry as nat, i as int) is None,
        decreases rows.len() - i,
    {
        let here = match &rows[i] {
            HistoryRow::Wip { .. } => entry == 0,
            HistoryRow::Commit { index } => *index < usize::MAX && *index + 1 == entry,
            _ => false,
        };
        assert(sh[i as int] == rows@[i as int]@);
        if here {
            proof {
                lemma_first_row_of_entry_stays(sh, entry as nat, i as int + 1, rows@.len() as int);
            }
            return Some(i);
        }
        i += 1;
    }
    None
}

/// The first commit with a hash.
pub open spec fn commit_with_hash(commits: Seq<Commit>, hash: Seq<char>, n: int) -> Option<nat>
    decreases n,
{
    if n <= 0 {
        None
    } else {
        match commit_with_hash(commits, hash, n - 1) {
            Some(i) => Some(i),
            None => if commits[n - 1].hash@ == hash {
                Some((n - 1) as nat)
            } else {
                None
            },
        }
    }
}

/// The history entry of a selection: 0 for WIP, `i + 1` for the first
/// commit `i` with the selected hash; none without a selection or when no
/// commit has the hash.
pub open spec fn entry_of_selection(selection: Option<HistorySelection>, commits: Seq<Commit>) -> Option<nat> {
    match selection {
        None => None,
        Some(HistorySelection::Wip) => Some(0),
        Some(HistorySelection::Commit { hash }) => match commit_with_hash(
            commits,
            hash@,
            commits.len() as int,
        ) {
            Some(i) => Some(i + 1),
            None => None,
        },
    }
}

proof fn lemma_commit_with_hash_stays(commits: Seq<Commit>, hash: Seq<char>, m: int, n: int)
    requires
        0 <= m <= n,
        commit_with_hash(commits, hash, m) is Some,
    ensures
        commit_with_hash(commits, hash, n) == commit_with_hash(commits, hash, m),
    decreases n - m,
{
    if m < n {
        lemma_commit_with_hash_stays(commits, hash, m, n - 1);
    }
}

fn commit_index(commits: &Vec<Commit>, hash: &str) -> (r: Option<usize>)
    ensures
        r matches Some(i) ==> i < commits@.len() && commit_with_hash(commits@, hash@, commits@.len() as int)
            == Some(i as nat),
        r is None ==> commit_with_hash(commits@, hash@, commits@.len() as int) is None,
{
    let target = chars_of(hash);
    let mut i: usize = 0;
    while i < commits.len()
        invariant
            i <= commits@.len(),
            target@ == hash@,
            commit_with_hash(commits@, hash@, i as int) is None,
        decreases commits.len() - i,
    {
        let candidate = chars_of(commits[i].hash.as_str());
        if crate::text::chars_eq(&candidate, &target) {
            proof {
                lemma_commit_with_hash_stays(commits@, hash@, i as int + 1, commits@.len() as int);
            }
            return Some(i);
        }
        i += 1;
    }
    None
}

/// The history entry of the present selection.
pub fn selection_entry(selection: Option<&HistorySelection>, commits: &Vec<Commit>) -> (r: Option<usize>)
    requires
        commits@.len() < usize::MAX,
    ensures
        r matches Some(e) ==> entry_of_selection(match selection { Some(x) => Some(*x), None => None }, commits@) == Some(e as nat),
        r is None ==> entry_of_selection(match selection { Some(x) => Some(*x), None => None }, commits@) is None,
{
    match selection {
        None => None,
        Some(HistorySelection::Wip) => Some(0),
        Some(HistorySelection::Commit { hash }) => match commit_index(commits, hash.as_str()) {
            Some(i) => Some(i + 1),
            None => None,
        },
    }
}

/// The first place of `e` among the selectable entries.
pub open spec fn place_of(entries: Seq<usize>, e: nat, n: int) -> Option<usize>
    decreases n,
{
    if n <= 0 {
        None
    } else {
        match place_of(entries, e, n - 1) {
            Some(i) => Some(i),
            None => if entries[n - 1] == e {
                Some((n - 1) as usize)
            } else {
                None
            },
        }
    }
}

/// The entry a move by `delta` selects, counted over the selectable
/// entries from the present one (from the first when the present one is
/// not among them); none in an empty history or when the move stays on the
/// present entry.
pub open spec fn moved_entry(entries: Seq<usize>, current: Option<nat>, delta: isize) -> Option<usize> {
    let place = match current {
        Some(c) => place_of(entries, c, entries.len() as int),
        None => None,
    };
    match moved_position(place, entries.len() as usize, delta) {
        None => None,
        Some(p) => if current == Some(entries[p as int] as nat) {
            None
        } else {
            Some(entries[p as int])
        },
    }
}

proof fn lemma_place_of_stays(entries: Seq<usize>, e: nat, m: int, n: int)
    requires
        0 <= m <= n,
        place_of(entries, e, m) is Some,
    ensures
        place_of(entries, e, n) == place_of(entries, e, m),
    decreases n - m,
{
    if m < n {
        lemma_place_of_stays(entries, e, m, n - 1);
    }
}

pub(crate) fn place_in(entries: &Vec<usize>, c: usize) -> (r: Option<usize>)
    ensures
        r == place_of(entries@, c as nat, entries@.len() as int),
{
    let mut i: usize = 0;
    while i < entries.len()
        invariant
            i <= entries@.len(),
            place_of(entries@, c as nat, i as int) is None,
        decreases entries.len() - i,
    {
        if entries[i] == c {
            proof {
                lemma_place_of_stays(entries@, c as nat, i as int + 1, entries@.len() as int);
            }
            return Some(i);
        }
        i += 1;
    }
    None
}

/// The history entry to select after moving `delta` places.
pub fn moved_history_entry(entries: &Vec<usize>, current: Option<usize>, delta: isize) -> (r: Option<usize>)
    ensures
        r == moved_entry(
            entries@,
            match current {
                Some(c) => Some(c as nat),
                None => None,
            },
            delta,
        ),
{
    let ghost cur: Option<nat> = match current {
        Some(c) => Some(c as nat),
        None => None,
    };
    let place: Option<usize> = match current {
        Some(c) => place_in(entries, c),
        None => None,
    };
    match moved_selection(place, entries.len(), delta) {
        None => None,
        Some(p) => {
            let e = entries[p];
            match current {
                Some(c) => if c == e {
                    None
                } else {
                    Some(e)
                },
                None => Some(e),
            }
        },
    }
}

} // verus!
