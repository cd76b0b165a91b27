//! The Files panel: the folder tree of changed paths, moving between its file
//! rows, and filtering it by a search query.
use vstd::prelude::*;

use crate::model::{ChangedFile, FileTreeRow, FileTreeRowKind};
use crate::navigation::{fuzzy_match, fuzzy_matches, moved_position, moved_selection};
use crate::text::{chars_of, has_prefix};

verus! {

/// Whether a tree row is a file (not a directory).
pub open spec fn is_file_row(row: FileTreeRow) -> bool {
    row.kind == FileTreeRowKind::File
}

/// The first file row of a tree.
pub fn first_file_row(tree: &Vec<FileTreeRow>) -> (r: Option<usize>)
    ensures
        r matches Some(i) ==> i < tree@.len() && is_file_row(tree@[i as int]) && forall|j: int|
            0 <= j < i ==> !is_file_row(tree@[j]),
        r is None ==> forall|j: int| 0 <= j < tree@.len() ==> !is_file_row(tree@[j]),
{
    let mut i: usize = 0;
    while i < tree.len()
        invariant
            i <= tree@.len(),
            forall|j: int| 0 <= j < i ==> !is_file_row(tree@[j]),
        decreases tree.len() - i,
    {
        if !tree[i].is_directory() {
            return Some(i);
        }
        i += 1;
    }
    None
}

/// Every visible position names a row of the tree.
pub open spec fn rows_in_tree(visible: Seq<usize>, tree: Seq<FileTreeRow>) -> bool {
    forall|p: int| 0 <= p < visible.len() ==> #[trigger] visible[p] < tree.len()
}

/// The first visible row that is a file.
pub fn first_file_row_in(tree: &Vec<FileTreeRow>, visible: &Vec<usize>) -> (r: Option<usize>)
    requires
        rows_in_tree(visible@, tree@),
    ensures
        r matches Some(i) ==> exists|p: int|
            0 <= p < visible@.len() && visible@[p] == i && is_file_row(tree@[i as int]) && forall|
                q: int,
            |
                0 <= q < p ==> !is_file_row(tree@[visible@[q] as int]),
        r is None ==> forall|p: int|
            0 <= p < visible@.len() ==> !is_file_row(#[trigger] tree@[visible@[p] as int]),
{
    let mut p: usize = 0;
    while p < visible.len()
        invariant
            p <= visible@.len(),
            rows_in_tree(visible@, tree@),
            forall|q: int| 0 <= q < p ==> !is_file_row(#[trigger] tree@[visible@[q] as int]),
        decreases visible.len() - p,
    {
        let row = visible[p];
        if !tree[row].is_directory() {
            return Some(row);
        }
        p += 1;
    }
    None
}

/// The positions, among the visible rows, of the file rows, in order.
pub open spec fn file_positions(visible: Seq<usize>, tree: Seq<FileTreeRow>) -> Seq<usize>
    decreases visible.len(),
{
    if visible.len() == 0 {
        seq![]
    } else {
        let earlier = file_positions(visible.drop_last(), tree);
        if is_file_row(tree[visible.last() as int]) {
            earlier.push((visible.len() - 1) as usize)
        } else {
            earlier
        }
    }
}

/// The first index of a file position whose row is `selected`.
pub open spec fn selected_file_position(
    positions: Seq<usize>,
    visible: Seq<usize>,
    selected: usize,
    from: int,
) -> Option<usize>
    decreases positions.len() - from,
{
    if from < 0 || from >= positions.len() {
        None
    } else if visible[positions[from] as int] == selected {
        Some(from as usize)
    } else {
        selected_file_position(positions, visible, selected, from + 1)
    }
}

/// The file row reached by moving `delta` file rows from the selected row,
/// among the visible rows; when the selection is not a visible file, moving
/// starts from the first visible file.
pub open spec fn moved_file_row(
    selected: Option<usize>,
    visible: Seq<usize>,
    tree: Seq<FileTreeRow>,
    delta: isize,
) -> Option<usize> {
    let positions = file_positions(visible, tree);
    let found = match selected {
        Some(s) => selected_file_position(positions, visible, s, 0),
        None => None,
    };
    let current = match found {
        Some(c) => Some(c),
        None => if positions.len() > 0 {
            Some(0usize)
        } else {
            None
        },
    };
    match moved_position(current, positions.len() as usize, delta) {
        Some(next) => Some(visible[positions[next as int] as int]),
        None => None,
    }
}

proof fn lemma_file_positions(visible: Seq<usize>, tree: Seq<FileTreeRow>)
    requires
        rows_in_tree(visible, tree),
        visible.len() <= usize::MAX,
    ensures
        file_positions(visible, tree).len() <= visible.len(),
        forall|k: int|
            0 <= k < file_positions(visible, tree).len() ==> #[trigger] file_positions(
                visible,
                tree,
            )[k] < visible.len() && is_file_row(
                tree[visible[file_positions(visible, tree)[k] as int] as int],
            ),
    decreases visible.len(),
{
    if visible.len() > 0 {
        let rest = visible.drop_last();
        assert(rows_in_tree(rest, tree));
        lemma_file_positions(rest, tree);
        let earlier = file_positions(rest, tree);
        let all = file_positions(visible, tree);
        if is_file_row(tree[visible.last() as int]) {
            assert(all == earlier.push((visible.len() - 1) as usize));
        } else {
            assert(all == earlier);
        }
        assert forall|k: int| 0 <= k < all.len() implies #[trigger] all[k] < visible.len()
            && is_file_row(tree[visible[all[k] as int] as int]) by {
            if k < earlier.len() {
                assert(all[k] == earlier[k]);
                assert(rest[earlier[k] as int] == visible[earlier[k] as int]);
            } else {
                assert(all[k] == visible.len() - 1);
            }
        }
    }
}

fn find_selected(positions: &Vec<usize>, visible: &Vec<usize>, selected: usize) -> (r: Option<
    usize,
>)
    requires
        forall|q: int| 0 <= q < positions@.len() ==> #[trigger] positions@[q] < visible@.len(),
    ensures
        r == selected_file_position(positions@, visible@, selected, 0),
{
    let mut k: usize = 0;
    while k < positions.len()
        invariant
            k <= positions@.len(),
            forall|q: int| 0 <= q < positions@.len() ==> #[trigger] positions@[q] < visible@.len(),
            selected_file_position(positions@, visible@, selected, 0) == selected_file_position(
                positions@,
                visible@,
                selected,
                k as int,
            ),
        decreases positions.len() - k,
    {
        if visible[positions[k]] == selected {
            return Some(k);
        }
        k += 1;
    }
    None
}

/// Moves the file selection by `delta` files among the visible rows,
/// skipping directory rows.
pub fn moved_visible_file_selection(
    selected: Option<usize>,
    visible: &Vec<usize>,
    tree: &Vec<FileTreeRow>,
    delta: isize,
) -> (r: Option<usize>)
    requires
        rows_in_tree(visible@, tree@),
    ensures
        r == moved_file_row(selected, visible@, tree@, delta),
{
    let mut positions: Vec<usize> = Vec::new();
    let mut p: usize = 0;
    assert(visible@.take(0) =~= Seq::<usize>::empty());
    while p < visible.len()
        invariant
            p <= visible@.len(),
            rows_in_tree(visible@, tree@),
            positions@ == file_positions(visible@.take(p as int), tree@),
        decreases visible.len() - p,
    {
        assert(visible@.take(p as int + 1).drop_last() =~= visible@.take(p as int));
        assert(visible@.take(p as int + 1).last() == visible@[p as int]);
        if !tree[visible[p]].is_directory() {
            positions.push(p);
        }
        p += 1;
    }
    assert(visible@.take(visible@.len() as int) =~= visible@);
    let count = visible.len();
    proof {
        lemma_file_positions(visible@, tree@);
    }
    let found: Option<usize> = match selected {
        Some(s) => find_selected(&positions, visible, s),
        None => None,
    };
    let current = match found {
        Some(c) => Some(c),
        None => if positions.len() > 0 {
            Some(0usize)
        } else {
            None
        },
    };
    match moved_selection(current, positions.len(), delta) {
        Some(next) => {
            proof {
                crate::navigation::lemma_moved_selection_in_bounds(current, positions.len(), delta);
            }
            Some(visible[positions[next]])
        },
        None => None,
    }
}

/// Moving among files lands on a visible file row, never on a directory.
pub proof fn lemma_moved_file_row_is_a_visible_file(
    selected: Option<usize>,
    visible: Seq<usize>,
    tree: Seq<FileTreeRow>,
    delta: isize,
)
    requires
        rows_in_tree(visible, tree),
        visible.len() <= usize::MAX,
    ensures
        moved_file_row(selected, visible, tree, delta) matches Some(row) ==> visible.contains(row)
            && is_file_row(tree[row as int]),
        moved_file_row(selected, visible, tree, delta) is None <==> file_positions(
            visible,
            tree,
        ).len() == 0,
{
    lemma_file_positions(visible, tree);
    let positions = file_positions(visible, tree);
    let found = match selected {
        Some(s) => selected_file_position(positions, visible, s, 0),
        None => None,
    };
    let current = match found {
        Some(c) => Some(c),
        None => if positions.len() > 0 {
            Some(0usize)
        } else {
            None
        },
    };
    let n = positions.len() as usize;
    crate::navigation::lemma_moved_selection_in_bounds(current, n, delta);
    match moved_position(current, n, delta) {
        Some(next) => {
            let row = visible[positions[next as int] as int];
            assert(visible[positions[next as int] as int] == row);
        },
        None => {},
    }
}

/// Whether `path` lies inside the directory `dir`, or is it: its components
/// start with those of `dir`.
pub open spec fn path_within(path: Seq<char>, dir: Seq<char>) -> bool {
    path == dir || has_prefix(path, dir.push('/'))
}

fn path_within_exec(path: &Vec<char>, dir: &Vec<char>) -> (r: bool)
    ensures
        r == path_within(path@, dir@),
{
    if path.len() == dir.len() {
        let same = crate::text::chars_eq(path, dir);
        proof {
            if !same && has_prefix(path@, dir@.push('/')) {
                assert(false);
            }
        }
        return same;
    }
    if path.len() <= dir.len() {
        proof {
            if path@ == dir@ {
                assert(false);
            }
        }
        return false;
    }
    let mut i: usize = 0;
    while i < dir.len()
        invariant
            i <= dir@.len(),
            dir@.len() < path@.len(),
            forall|j: int| 0 <= j < i ==> path@[j] == dir@[j],
        decreases dir.len() - i,
    {
        if path[i] != dir[i] {
            assert(path@.take(dir@.len() as int + 1)[i as int] != dir@.push('/')[i as int]);
            return false;
        }
        i += 1;
    }
    let r = path[dir.len()] == '/';
    if r {
        assert(path@.take(dir@.len() as int + 1) =~= dir@.push('/'));
    } else {
        assert(path@.take(dir@.len() as int + 1)[dir@.len() as int] != dir@.push('/')[dir@.len() as int]);
    }
    r
}

/// The file a tree row shows: the first file with the row's path.
pub open spec fn file_of_row(files: Seq<ChangedFile>, path: Seq<char>, from: int) -> Option<
    ChangedFile,
>
    decreases files.len() - from,
{
    if from < 0 || from >= files.len() {
        None
    } else if files[from].path@ == path {
        Some(files[from])
    } else {
        file_of_row(files, path, from + 1)
    }
}

/// Whether a tree row is a file that matches the query.
pub open spec fn row_matches(tree: Seq<FileTreeRow>, files: Seq<ChangedFile>, query: Seq<char>, i: int) -> bool {
    is_file_row(tree[i]) && match file_of_row(files, tree[i].path@, 0) {
        Some(f) => fuzzy_matches(query, f.path@),
        None => false,
    }
}

/// Whether a tree row stays visible under a query: a file row that matches,
/// or a directory row that holds a matching file row.
pub open spec fn row_kept(tree: Seq<FileTreeRow>, files: Seq<ChangedFile>, query: Seq<char>, i: int) -> bool {
    if is_file_row(tree[i]) {
        row_matches(tree, files, query, i)
    } else {
        exists|m: int|
            0 <= m < tree.len() && row_matches(tree, files, query, m) && path_within(
                tree[m].path@,
                tree[i].path@,
            )
    }
}

/// The rows kept among the first `n`, in order.
pub open spec fn kept_rows(tree: Seq<FileTreeRow>, files: Seq<ChangedFile>, query: Seq<char>, n: int) -> Seq<usize>
    decreases n,
{
    if n <= 0 {
        seq![]
    } else if row_kept(tree, files, query, n - 1) {
        kept_rows(tree, files, query, n - 1).push((n - 1) as usize)
    } else {
        kept_rows(tree, files, query, n - 1)
    }
}

/// The visible rows of a tree under a query: all rows for the empty query,
/// else the rows kept.
pub open spec fn filtered_rows(tree: Seq<FileTreeRow>, files: Seq<ChangedFile>, query: Seq<char>) -> Seq<usize> {
    if query.len() == 0 {
        Seq::new(tree.len(), |i: int| i as usize)
    } else {
        kept_rows(tree, files, query, tree.len() as int)
    }
}

fn file_row_matches(tree: &Vec<FileTreeRow>, files: &Vec<ChangedFile>, query: &str, i: usize) -> (r:
    bool)
    requires
        i < tree@.len(),
    ensures
        r == row_matches(tree@, files@, query@, i as int),
{
    if tree[i].is_directory() {
        return false;
    }
    let mut k: usize = 0;
    while k < files.len()
        invariant
            k <= files@.len(),
            i < tree@.len(),
            is_file_row(tree@[i as int]),
            file_of_row(files@, tree@[i as int].path@, 0) == file_of_row(
                files@,
                tree@[i as int].path@,
                k as int,
            ),
        decreases files.len() - k,
    {
        if files[k].path == tree[i].path {
            return fuzzy_match(query, files[k].path.as_str());
        }
        k += 1;
    }
    false
}

/// The rows of the Files tree that stay visible under a search query: every
/// row for the empty query; otherwise the file rows whose file matches the
/// query fuzzily, and the directory rows that contain one of them.
pub fn filtered_tree(tree: &Vec<FileTreeRow>, files: &Vec<ChangedFile>, query: &str) -> (r: Vec<
    usize,
>)
    ensures
        r@ == filtered_rows(tree@, files@, query@),
{
    let q = chars_of(query);
    if q.len() == 0 {
        let mut all: Vec<usize> = Vec::new();
        let mut i: usize = 0;
        while i < tree.len()
            invariant
                i <= tree@.len(),
                all@ == Seq::new(i as nat, |j: int| j as usize),
            decreases tree.len() - i,
        {
            all.push(i);
            assert(all@ =~= Seq::new(i as nat + 1, |j: int| j as usize));
            i += 1;
        }
        return all;
    }
    let mut matching: Vec<usize> = Vec::new();
    let mut i: usize = 0;
    while i < tree.len()
        invariant
            i <= tree@.len(),
            forall|p: int| 0 <= p < matching@.len() ==> #[trigger] matching@[p] < i,
            forall|p: int|
                0 <= p < matching@.len() ==> row_matches(tree@, files@, query@, #[trigger] matching@[p] as int),
            forall|m: int| 0 <= m < i && row_matches(tree@, files@, query@, m) ==> #[trigger] matching@.contains(
                m as usize,
            ),
        decreases tree.len() - i,
    {
        if file_row_matches(tree, files, query, i) {
            let ghost before = matching@;
            matching.push(i);
            assert forall|m: int| 0 <= m < i + 1 && row_matches(tree@, files@, query@, m) implies #[trigger] matching@.contains(
                m as usize,
            ) by {
                if m < i {
                    assert(before.contains(m as usize));
                    let p = choose|p: int| 0 <= p < before.len() && before[p] == m as usize;
                    assert(matching@[p] == m as usize);
                } else {
                    assert(matching@[before.len() as int] == m as usize);
                }
            }
        }
        i += 1;
    }
    let mut kept: Vec<usize> = Vec::new();
    let mut j: usize = 0;
    while j < tree.len()
        invariant
            j <= tree@.len(),
            q@ == query@,
            q@.len() > 0,
            forall|p: int| 0 <= p < matching@.len() ==> #[trigger] matching@[p] < tree@.len(),
            forall|p: int|
                0 <= p < matching@.len() ==> row_matches(tree@, files@, query@, #[trigger] matching@[p] as int),
            forall|m: int| 0 <= m < tree@.len() && row_matches(tree@, files@, query@, m) ==> #[trigger] matching@.contains(
                m as usize,
            ),
            kept@ == kept_rows(tree@, files@, query@, j as int),
        decreases tree.len() - j,
    {
        let keep = if !tree[j].is_directory() {
            let mut found = false;
            let mut p: usize = 0;
            while p < matching.len()
                invariant
                    p <= matching@.len(),
                    found == (exists|x: int| 0 <= x < p && matching@[x] == j),
                decreases matching.len() - p,
            {
                if matching[p] == j {
                    found = true;
                }
                p += 1;
            }
            proof {
                if row_matches(tree@, files@, query@, j as int) {
                    assert(matching@.contains(j as usize));
                }
                if found {
                    let x = choose|x: int| 0 <= x < matching@.len() && matching@[x] == j;
                    assert(row_matches(tree@, files@, query@, matching@[x] as int));
                }
            }
            found
        } else {
            let dir = chars_of(tree[j].path.as_str());
            let mut found = false;
            let mut p: usize = 0;
            while p < matching.len()
                invariant
                    p <= matching@.len(),
                    j < tree@.len(),
                    dir@ == tree@[j as int].path@,
                    forall|x: int| 0 <= x < matching@.len() ==> #[trigger] matching@[x] < tree@.len(),
                    found == (exists|x: int|
                        0 <= x < p && path_within(
                            tree@[matching@[x] as int].path@,
                            tree@[j as int].path@,
                        )),
                decreases matching.len() - p,
            {
                let candidate = chars_of(tree[matching[p]].path.as_str());
                if path_within_exec(&candidate, &dir) {
                    found = true;
                }
                p += 1;
            }
            proof {
                if found {
                    let x = choose|x: int|
                        0 <= x < matching@.len() && path_within(
                            tree@[matching@[x] as int].path@,
                            tree@[j as int].path@,
                        );
                    let m = matching@[x] as int;
                    assert(row_matches(tree@, files@, query@, m));
                }
                if exists|m: int|
                    0 <= m < tree@.len() && row_matches(tree@, files@, query@, m) && path_within(
                        tree@[m].path@,
                        tree@[j as int].path@,
                    ) {
                    let m = choose|m: int|
                        0 <= m < tree@.len() && row_matches(tree@, files@, query@, m) && path_within(
                            tree@[m].path@,
                            tree@[j as int].path@,
                        );
                    assert(matching@.contains(m as usize));
                    let x = choose|x: int| 0 <= x < matching@.len() && matching@[x] == m as usize;
                    assert(path_within(tree@[matching@[x] as int].path@, tree@[j as int].path@));
                }
            }
            found
        };
        if keep {
            kept.push(j);
        }
        j += 1;
    }
    kept
}

/// Under a query, a kept file row matches it, and a kept row's directories
/// are kept with it.
pub proof fn lemma_filter_keeps_ancestors(
    tree: Seq<FileTreeRow>,
    files: Seq<ChangedFile>,
    query: Seq<char>,
    file_row: int,
    dir_row: int,
)
    requires
        0 <= file_row < tree.len(),
        0 <= dir_row < tree.len(),
        row_kept(tree, files, query, file_row),
        is_file_row(tree[file_row]),
        !is_file_row(tree[dir_row]),
        path_within(tree[file_row].path@, tree[dir_row].path@),
    ensures
        row_matches(tree, files, query, file_row),
        row_kept(tree, files, query, dir_row),
{
}

} // verus!
