//! Which worktree, commit, file and location the navigator selects: at
//! startup, when a filter changes, when a change is followed, and when a
//! source location is copied.
use vstd::prelude::*;

use crate::files::{first_file_row_in, is_file_row, rows_in_tree};
use crate::model::{ChangedFile, Commit, DiffRow, FileTreeRow, HistorySelection, Worktree};
use crate::navigation::{fuzzy_match, fuzzy_matches};
use crate::text::{
    chars_of, copy_chars, decimal, decimal_chars, has_prefix, split_at_char, split_chars, string_of, trim,
    trim_chars,
};

verus! {

/// The worktree selected at startup: the current one, else the first.
pub fn initial_worktree(worktrees: &Vec<Worktree>) -> (r: usize)
    ensures
        r == 0 || (r < worktrees@.len() && worktrees@[r as int].is_current),
        worktrees@.len() > 0 ==> r < worktrees@.len(),
        forall|j: int| 0 <= j < r ==> !worktrees@[j].is_current,
        r == 0 && !(worktrees@.len() > 0 && worktrees@[0].is_current) ==> forall|j: int|
            0 <= j < worktrees@.len() ==> !worktrees@[j].is_current,
{
    let mut i: usize = 0;
    while i < worktrees.len()
        invariant
            i <= worktrees@.len(),
            forall|j: int| 0 <= j < i ==> !worktrees@[j].is_current,
        decreases worktrees.len() - i,
    {
        if worktrees[i].is_current {
            return i;
        }
        i += 1;
    }
    0
}

/// Whether a repository has linked worktrees besides its main one.
pub fn has_linked_worktrees(worktrees: &Vec<Worktree>) -> (r: bool)
    ensures
        r == exists|i: int| 0 <= i < worktrees@.len() && !worktrees@[i].is_main,
{
    let mut i: usize = 0;
    while i < worktrees.len()
        invariant
            i <= worktrees@.len(),
            forall|j: int| 0 <= j < i ==> worktrees@[j].is_main,
        decreases worktrees.len() - i,
    {
        if !worktrees[i].is_main {
            return true;
        }
        i += 1;
    }
    false
}

/// The text a worktree is searched by: its path, branch and head.
pub open spec fn worktree_search_text(w: Worktree) -> Seq<char> {
    w.path@ + " "@ + w.branch@ + " "@ + w.head@
}

/// The worktrees, by position, that match a filter.
pub open spec fn matching_worktrees(worktrees: Seq<Worktree>, filter: Seq<char>, n: int) -> Seq<usize>
    decreases n,
{
    if n <= 0 {
        seq![]
    } else if fuzzy_matches(filter, worktree_search_text(worktrees[n - 1])) {
        matching_worktrees(worktrees, filter, n - 1).push((n - 1) as usize)
    } else {
        matching_worktrees(worktrees, filter, n - 1)
    }
}

fn search_text(w: &Worktree) -> (r: String)
    ensures
        r@ == worktree_search_text(*w),
{
    let mut v = chars_of(w.path.as_str());
    let mut a = chars_of(" ");
    let mut b = chars_of(w.branch.as_str());
    let mut c = chars_of(" ");
    let mut d = chars_of(w.head.as_str());
    v.append(&mut a);
    v.append(&mut b);
    v.append(&mut c);
    v.append(&mut d);
    string_of(&v)
}

/// The worktrees listed under a filter: those whose path, branch and head
/// match it fuzzily, in order.
pub fn visible_worktree_indices(worktrees: &Vec<Worktree>, filter: &str) -> (r: Vec<usize>)
    ensures
        r@ == matching_worktrees(worktrees@, filter@, worktrees@.len() as int),
{
    let mut out: Vec<usize> = Vec::new();
    let mut i: usize = 0;
    while i < worktrees.len()
        invariant
            i <= worktrees@.len(),
            out@ == matching_worktrees(worktrees@, filter@, i as int),
        decreases worktrees.len() - i,
    {
        let text = search_text(&worktrees[i]);
        if fuzzy_match(filter, text.as_str()) {
            out.push(i);
        }
        i += 1;
    }
    out
}

fn contains_index(v: &Vec<usize>, x: usize) -> (r: bool)
    ensures
        r == v@.contains(x),
{
    let mut i: usize = 0;
    while i < v.len()
        invariant
            i <= v@.len(),
            forall|j: int| 0 <= j < i ==> v@[j] != x,
        decreases v.len() - i,
    {
        if v[i] == x {
            return true;
        }
        i += 1;
    }
    false
}

/// The worktree selected after the filter changes: the selected one while
/// it stays listed, else the first listed.
pub fn worktree_after_filter(selected: Option<usize>, visible: &Vec<usize>) -> (r: Option<usize>)
    ensures
        (selected matches Some(s) && visible@.contains(s)) ==> r == selected,
        !(selected matches Some(s) && visible@.contains(s)) ==> r == (if visible@.len() > 0 {
            Some(visible@[0])
        } else {
            None
        }),
{
    match selected {
        Some(s) => {
            if contains_index(visible, s) {
                return Some(s);
            }
        },
        None => {},
    }
    if visible.len() > 0 {
        Some(visible[0])
    } else {
        None
    }
}

/// The file row selected after the filter changes: the selected row while it
/// stays visible and is a file, else the first visible file row.
pub fn file_after_filter(selected: Option<usize>, visible: &Vec<usize>, tree: &Vec<FileTreeRow>) -> (r:
    Option<usize>)
    requires
        rows_in_tree(visible@, tree@),
    ensures
        (selected matches Some(s) && visible@.contains(s) && s < tree@.len() && is_file_row(
            tree@[s as int],
        )) ==> r == selected,
        !(selected matches Some(s) && visible@.contains(s) && s < tree@.len() && is_file_row(
            tree@[s as int],
        )) ==> (r matches Some(i) ==> exists|p: int|
            0 <= p < visible@.len() && visible@[p] == i && is_file_row(tree@[i as int]) && forall|
                q: int,
            |
                0 <= q < p ==> !is_file_row(tree@[visible@[q] as int])),
        !(selected matches Some(s) && visible@.contains(s) && s < tree@.len() && is_file_row(
            tree@[s as int],
        )) ==> (r is None ==> forall|p: int|
            0 <= p < visible@.len() ==> !is_file_row(#[trigger] tree@[visible@[p] as int])),
{
    match selected {
        Some(s) => {
            if contains_index(visible, s) && s < tree.len() && !tree[s].is_directory() {
                return Some(s);
            }
        },
        None => {},
    }
    first_file_row_in(tree, visible)
}

/// The history entry at a position of the list that starts with WIP: WIP
/// at 0, else the commit before it; none past the end.
pub fn commit_selection(position: usize, commits: &Vec<Commit>) -> (r: Option<HistorySelection>)
    ensures
        position > commits@.len() ==> r is None,
        position == 0 ==> r == Some(HistorySelection::Wip),
        0 < position <= commits@.len() ==> (r matches Some(HistorySelection::Commit { hash })
            && hash@ == commits@[position - 1].hash@),
{
    if position > commits.len() {
        return None;
    }
    if position == 0 {
        return Some(HistorySelection::Wip);
    }
    Some(HistorySelection::Commit { hash: commits[position - 1].hash.clone() })
}

/// `path` below the directory `root`, as a relative path.
pub open spec fn relative_to(path: Seq<char>, root: Seq<char>) -> Option<Seq<char>> {
    if has_prefix(path, root.push('/')) {
        Some(path.skip(root.len() as int + 1))
    } else {
        None
    }
}

/// The worktree to select after the worktrees are listed again: the one at
/// the path selected before, else the current one, else the first; none in
/// an empty list.
pub fn worktree_after_refresh(worktrees: &Vec<Worktree>, previous: Option<&str>) -> (r: Option<usize>)
    ensures
        worktrees@.len() == 0 <==> r is None,
        r matches Some(i) ==> i < worktrees@.len(),
        (previous matches Some(p) && exists|j: int| 0 <= j < worktrees@.len() && worktrees@[j].path@ == p@)
            ==> (r matches Some(i) && worktrees@[i as int].path@ == previous->0@ && forall|j: int|
            0 <= j < i ==> worktrees@[j].path@ != previous->0@),
        !(previous matches Some(p) && exists|j: int|
            0 <= j < worktrees@.len() && worktrees@[j].path@ == p@) ==> (r matches Some(i) && (
        worktrees@[i as int].is_current || (i == 0 && forall|j: int|
            0 <= j < worktrees@.len() ==> !worktrees@[j].is_current)) && forall|j: int|
            0 <= j < i ==> !worktrees@[j].is_current) || worktrees@.len() == 0,
{
    if let Some(p) = previous {
        if let Some(i) = crate::navigation::worktree_index(worktrees, p) {
            return Some(i);
        }
    }
    if worktrees.len() == 0 {
        return None;
    }
    Some(initial_worktree(worktrees))
}

/// The worktree a click on the `position`-th shown row picks: none past
/// the shown rows or when that worktree is already selected.
pub open spec fn worktree_pick(visible: Seq<usize>, position: nat, selected: Option<usize>) -> Option<usize> {
    if position < visible.len() && selected != Some(visible[position as int]) {
        Some(visible[position as int])
    } else {
        None
    }
}

/// The first position, from `from` on, that holds `x`.
pub open spec fn position_of(v: Seq<usize>, x: usize, from: int) -> Option<usize>
    decreases v.len() - from,
{
    if from < 0 || from >= v.len() {
        None
    } else if v[from] == x {
        Some(from as usize)
    } else {
        position_of(v, x, from + 1)
    }
}

/// The shown item reached by moving `delta` places from the selected one
/// among the shown items, stopping at the ends; moving starts from the first
/// shown item when the selection is not shown. None when nothing is shown.
pub open spec fn moved_visible(visible: Seq<usize>, selected: Option<usize>, delta: isize) -> Option<
    usize,
> {
    let current = match selected {
        Some(s) => position_of(visible, s, 0),
        None => None,
    };
    match crate::navigation::moved_position(current, visible.len() as usize, delta) {
        Some(p) => Some(visible[p as int]),
        None => None,
    }
}

fn position_in(v: &Vec<usize>, x: usize) -> (r: Option<usize>)
    ensures
        r == position_of(v@, x, 0),
{
    let mut k: usize = 0;
    while k < v.len()
        invariant
            k <= v@.len(),
            position_of(v@, x, 0) == position_of(v@, x, k as int),
        decreases v.len() - k,
    {
        if v[k] == x {
            return Some(k);
        }
        k += 1;
    }
    None
}

/// Moves a selection among the shown items of a filtered list.
pub fn moved_visible_selection(visible: &Vec<usize>, selected: Option<usize>, delta: isize) -> (r:
    Option<usize>)
    ensures
        r == moved_visible(visible@, selected, delta),
        r matches Some(i) ==> visible@.contains(i),
{
    let current = match selected {
        Some(s) => position_in(visible, s),
        None => None,
    };
    assert(visible@.len() == visible.len());
    let next = crate::navigation::moved_selection(current, visible.len(), delta);
    proof {
        crate::navigation::lemma_moved_selection_in_bounds(current, visible.len(), delta);
    }
    match next {
        Some(p) => Some(visible[p]),
        None => None,
    }
}

/// The worktree to select after a click on a shown row.
pub fn worktree_choice(visible: &Vec<usize>, position: usize, selected: Option<usize>) -> (r: Option<usize>)
    ensures
        r == worktree_pick(visible@, position as nat, selected),
{
    if position >= visible.len() {
        return None;
    }
    let index = visible[position];
    match selected {
        Some(s) => if s == index {
            None
        } else {
            Some(index)
        },
        None => Some(index),
    }
}

/// The file row a click on the `position`-th shown row picks: none past the
/// shown rows, on a folder or on the row already selected.
pub open spec fn file_row_pick(
    visible: Seq<usize>,
    tree: Seq<FileTreeRow>,
    position: nat,
    selected: Option<usize>,
) -> Option<usize> {
    if position < visible.len() && visible[position as int] < tree.len() && is_file_row(
        tree[visible[position as int] as int],
    ) && selected != Some(visible[position as int]) {
        Some(visible[position as int])
    } else {
        None
    }
}

/// The file row to select after a click on a shown row.
pub fn file_row_choice(
    visible: &Vec<usize>,
    tree: &Vec<FileTreeRow>,
    position: usize,
    selected: Option<usize>,
) -> (r: Option<usize>)
    ensures
        r == file_row_pick(visible@, tree@, position as nat, selected),
{
    if position >= visible.len() {
        return None;
    }
    let row = visible[position];
    if row >= tree.len() || tree[row].is_directory() {
        return None;
    }
    match selected {
        Some(s) => if s == row {
            None
        } else {
            Some(row)
        },
        None => Some(row),
    }
}

/// The first commit named by a full or short hash.
pub open spec fn commit_named(commits: Seq<Commit>, name: Seq<char>, n: int) -> Option<usize>
    decreases n,
{
    if n <= 0 {
        None
    } else {
        match commit_named(commits, name, n - 1) {
            Some(i) => Some(i),
            None => if commits[n - 1].hash@ == name || commits[n - 1].short_hash@ == name {
                Some((n - 1) as usize)
            } else {
                None
            },
        }
    }
}

/// The position of the first commit whose full or short hash is `name`.
pub fn find_commit(commits: &Vec<Commit>, name: &str) -> (r: Option<usize>)
    ensures
        r == commit_named(commits@, name@, commits@.len() as int),
{
    let target = chars_of(name);
    let mut i: usize = 0;
    while i < commits.len()
        invariant
            i <= commits@.len(),
            target@ == name@,
            commit_named(commits@, name@, i as int) is None,
        decreases commits.len() - i,
    {
        let full = chars_of(commits[i].hash.as_str());
        let short = chars_of(commits[i].short_hash.as_str());
        if crate::text::chars_eq(&full, &target) || crate::text::chars_eq(&short, &target) {
            proof {
                lemma_commit_named_stays(commits@, name@, i as int + 1, commits@.len() as int);
            }
            return Some(i);
        }
        i += 1;
    }
    None
}

proof fn lemma_commit_named_stays(commits: Seq<Commit>, name: Seq<char>, m: int, n: int)
    requires
        0 <= m <= n,
        commit_named(commits, name, m) is Some,
    ensures
        commit_named(commits, name, n) == commit_named(commits, name, m),
    decreases n - m,
{
    if m < n {
        lemma_commit_named_stays(commits, name, m, n - 1);
    }
}

/// The changed file to follow: the last changed path, inside the worktree,
/// that is a changed file, going back from the end of the list.
pub open spec fn followed_file(changed: Seq<String>, root: Seq<char>, files: Seq<ChangedFile>, n: int) -> Option<
    Seq<char>,
>
    decreases n,
{
    if n <= 0 {
        None
    } else {
        match relative_to(changed[n - 1]@, root) {
            Some(rel) => if exists|k: int| 0 <= k < files.len() && files[k].path@ == rel {
                Some(rel)
            } else {
                followed_file(changed, root, files, n - 1)
            },
            None => followed_file(changed, root, files, n - 1),
        }
    }
}

/// A path lies inside a worktree exactly when it is the worktree's path, a
/// slash, and the relative path that results.
pub proof fn lemma_relative_paths(path: Seq<char>, root: Seq<char>, rel: Seq<char>)
    ensures
        relative_to(path, root) == Some(rel) <==> path == root + seq!['/'] + rel,
{
    if path == root + seq!['/'] + rel {
        assert(has_prefix(path, root.push('/'))) by {
            assert(path.take(root.len() as int + 1) =~= root.push('/'));
        }
        assert(path.skip(root.len() as int + 1) =~= rel);
    }
    if relative_to(path, root) == Some(rel) {
        assert(path =~= root + seq!['/'] + rel) by {
            assert(path.take(root.len() as int + 1) =~= root.push('/'));
            assert(path =~= path.take(root.len() as int + 1) + path.skip(root.len() as int + 1));
        }
    }
}

/// Whether the `i`-th changed path lies inside the worktree and names one of
/// the changed files.
pub open spec fn names_listed_file(changed: Seq<String>, root: Seq<char>, files: Seq<ChangedFile>, i: int) -> bool {
    relative_to(changed[i]@, root) matches Some(rel) && exists|k: int|
        0 <= k < files.len() && files[k].path@ == rel
}

proof fn lemma_follow_last_within(
    changed: Seq<String>,
    root: Seq<char>,
    files: Seq<ChangedFile>,
    n: int,
)
    requires
        0 <= n <= changed.len(),
    ensures
        forall|i: int|
            0 <= i < n && names_listed_file(changed, root, files, i) && (forall|j: int|
                i < j < n ==> !names_listed_file(changed, root, files, j)) ==> followed_file(
                changed,
                root,
                files,
                n,
            ) == relative_to(#[trigger] changed[i]@, root),
        (forall|i: int| 0 <= i < n ==> !names_listed_file(changed, root, files, i)) ==> followed_file(
            changed,
            root,
            files,
            n,
        ) is None,
    decreases n,
{
    if n > 0 {
        lemma_follow_last_within(changed, root, files, n - 1);
        assert forall|i: int|
            0 <= i < n && names_listed_file(changed, root, files, i) && (forall|j: int|
                i < j < n ==> !names_listed_file(changed, root, files, j)) implies followed_file(
            changed,
            root,
            files,
            n,
        ) == relative_to(#[trigger] changed[i]@, root) by {
            if i < n - 1 {
                assert(!names_listed_file(changed, root, files, n - 1));
            }
        }
        if forall|i: int| 0 <= i < n ==> !names_listed_file(changed, root, files, i) {
            assert(!names_listed_file(changed, root, files, n - 1));
        }
    }
}

/// Following changes picks the last changed path that lies inside the
/// worktree and names a changed file, as a path relative to the worktree;
/// none when no changed path does. In particular, when the last changed path
/// names a changed file, that file is followed.
pub proof fn lemma_follow_picks_the_last_change(
    changed: Seq<String>,
    root: Seq<char>,
    files: Seq<ChangedFile>,
)
    ensures
        forall|i: int|
            0 <= i < changed.len() && names_listed_file(changed, root, files, i) && (forall|j: int|
                i < j < changed.len() ==> !names_listed_file(changed, root, files, j))
                ==> followed_file(changed, root, files, changed.len() as int) == relative_to(
                #[trigger] changed[i]@,
                root,
            ),
        (forall|i: int| 0 <= i < changed.len() ==> !names_listed_file(changed, root, files, i))
            ==> followed_file(changed, root, files, changed.len() as int) is None,
        changed.len() > 0 && names_listed_file(changed, root, files, changed.len() - 1)
            ==> followed_file(changed, root, files, changed.len() as int) == relative_to(
            changed.last()@,
            root,
        ),
{
    lemma_follow_last_within(changed, root, files, changed.len() as int);
    if changed.len() > 0 && names_listed_file(changed, root, files, changed.len() - 1) {
        assert(changed.last() == changed[changed.len() - 1]);
    }
}

fn relative_exec(path: &String, root: &Vec<char>) -> (r: Option<Vec<char>>)
    ensures
        r matches Some(rel) ==> relative_to(path@, root@) == Some(rel@),
        r is None ==> relative_to(path@, root@) is None,
{
    let p = chars_of(path.as_str());
    let mut prefix = crate::text::copy_chars(root);
    prefix.push('/');
    assert(prefix@ =~= root@.push('/'));
    if p.len() < prefix.len() {
        return None;
    }
    let mut i: usize = 0;
    while i < prefix.len()
        invariant
            i <= prefix@.len(),
            prefix@.len() <= p@.len(),
            prefix@ == root@.push('/'),
            p@ == path@,
            forall|j: int| 0 <= j < i ==> p@[j] == prefix@[j],
        decreases prefix.len() - i,
    {
        if p[i] != prefix[i] {
            assert(p@.take(prefix@.len() as int)[i as int] != prefix@[i as int]);
            return None;
        }
        i += 1;
    }
    assert(p@.take(prefix@.len() as int) =~= prefix@);
    Some(crate::text::skip_chars(&p, prefix.len()))
}

fn has_file(files: &Vec<ChangedFile>, path: &Vec<char>) -> (r: bool)
    ensures
        r == exists|k: int| 0 <= k < files@.len() && files@[k].path@ == path@,
{
    let s = string_of(path);
    let mut k: usize = 0;
    while k < files.len()
        invariant
            k <= files@.len(),
            s@ == path@,
            forall|j: int| 0 <= j < k ==> files@[j].path@ != path@,
        decreases files.len() - k,
    {
        if files[k].path == s {
            return true;
        }
        k += 1;
    }
    false
}

/// The changed file to select when following changes on disk.
pub fn follow_changed_paths(changed: &Vec<String>, worktree_path: &str, files: &Vec<ChangedFile>) -> (r:
    Option<String>)
    ensures
        r matches Some(p) ==> followed_file(changed@, worktree_path@, files@, changed@.len() as int)
            == Some(p@),
        r is None ==> followed_file(changed@, worktree_path@, files@, changed@.len() as int) is None,
{
    let root = chars_of(worktree_path);
    let mut n: usize = changed.len();
    while n > 0
        invariant
            n <= changed@.len(),
            root@ == worktree_path@,
            followed_file(changed@, worktree_path@, files@, changed@.len() as int) == followed_file(
                changed@,
                worktree_path@,
                files@,
                n as int,
            ),
        decreases n,
    {
        match relative_exec(&changed[n - 1], &root) {
            Some(rel) => {
                if has_file(files, &rel) {
                    return Some(string_of(&rel));
                }
            },
            None => {},
        }
        n -= 1;
    }
    None
}

/// A file path joined to a worktree path: an absolute file path stands
/// alone; otherwise the two are joined with one `/`.
pub open spec fn joined_path(root: Seq<char>, path: Seq<char>) -> Seq<char> {
    if path.len() > 0 && path[0] == '/' {
        path
    } else if root.len() == 0 || root.last() == '/' {
        root + path
    } else {
        root + "/"@ + path
    }
}

/// The location copied from a Diff row: the file's path in the worktree and
/// the row's new line number, or its old one for a deleted line; none
/// without either.
pub open spec fn location_text(root: Seq<char>, path: Seq<char>, row: DiffRow) -> Option<Seq<char>> {
    let line = match row.new_number {
        Some(n) => Some(n),
        None => row.old_number,
    };
    match line {
        Some(n) => Some(joined_path(root, path) + ":"@ + decimal(n as nat)),
        None => None,
    }
}

/// The source location of a Diff row, as `path:line`.
pub fn selected_location(worktree_path: &str, file_path: &str, row: &DiffRow) -> (r: Option<String>)
    ensures
        r matches Some(t) ==> location_text(worktree_path@, file_path@, *row) == Some(t@),
        r is None ==> location_text(worktree_path@, file_path@, *row) is None,
{
    let line = match row.new_number {
        Some(n) => n,
        None => match row.old_number {
            Some(n) => n,
            None => {
                return None;
            },
        },
    };
    let root = chars_of(worktree_path);
    let path = chars_of(file_path);
    proof {
        reveal_strlit("/");
        reveal_strlit(":");
    }
    let mut out = if path.len() > 0 && path[0] == '/' {
        crate::text::copy_chars(&path)
    } else {
        let mut joined = crate::text::copy_chars(&root);
        if !(root.len() == 0 || root[root.len() - 1] == '/') {
            joined.push('/');
        }
        let mut rest = crate::text::copy_chars(&path);
        joined.append(&mut rest);
        joined
    };
    let ghost joined = out@;
    assert(joined =~= joined_path(worktree_path@, file_path@));
    out.push(':');
    let mut digits = decimal_chars(line);
    out.append(&mut digits);
    assert(out@ =~= joined + ":"@ + decimal(line as nat));
    Some(string_of(&out))
}

/// A directory of Git's worktree metadata: its path, whether it is a
/// directory, and the contents of its `gitdir` file when it could be read.
pub struct MetadataEntry {
    pub path: String,
    pub is_dir: bool,
    pub gitdir: Option<String>,
}

/// Why stale metadata was not removed.
#[derive(Clone, Copy, Debug, PartialEq, Eq, Structural)]
pub enum StaleMetadataError {
    /// No metadata directory points at the worktree.
    NotRegistered,
    /// More than one does.
    Ambiguous,
}

impl StaleMetadataError {
    /// The message for a worktree whose metadata was not removed.
    pub open spec fn message_of(self, worktree: Seq<char>) -> Seq<char> {
        match self {
            StaleMetadataError::NotRegistered => "could not find Git metadata registered for "@ + worktree,
            StaleMetadataError::Ambiguous => "multiple Git metadata entries refer to "@ + worktree
                + "; refusing cleanup"@,
        }
    }

    /// The message for a worktree whose metadata was not removed.
    pub fn message(&self, worktree_path: &str) -> (r: String)
        ensures
            r@ == self.message_of(worktree_path@),
    {
        let mut t = match self {
            StaleMetadataError::NotRegistered => chars_of("could not find Git metadata registered for "),
            StaleMetadataError::Ambiguous => chars_of("multiple Git metadata entries refer to "),
        };
        let mut path = chars_of(worktree_path);
        t.append(&mut path);
        match self {
            StaleMetadataError::NotRegistered => {},
            StaleMetadataError::Ambiguous => {
                let mut tail = chars_of("; refusing cleanup");
                t.append(&mut tail);
            },
        }
        string_of(&t)
    }
}

/// The parts of a path kept after reading it, of the first `n` pieces
/// between slashes: empty pieces and `.` pieces are left out, except a `.`
/// that is the very first piece.
pub open spec fn kept_parts(pieces: Seq<Seq<char>>, n: int) -> Seq<Seq<char>>
    decreases n,
{
    if n <= 0 {
        seq![]
    } else {
        let earlier = kept_parts(pieces, n - 1);
        let piece = pieces[n - 1];
        if piece.len() == 0 || (piece == seq!['.'] && n - 1 != 0) {
            earlier
        } else {
            earlier.push(piece)
        }
    }
}

/// The components of a path written with `/`, as `std::path::Path` reads
/// them: a leading root as `/`, then the names between slashes, with empty
/// names and `.` left out except a `.` that starts a relative path.
pub open spec fn path_parts(p: Seq<char>) -> Seq<Seq<char>> {
    let pieces = split_at_char(p, '/');
    let root: Seq<Seq<char>> = if p.len() > 0 && p[0] == '/' {
        seq![seq!['/']]
    } else {
        seq![]
    };
    root + kept_parts(pieces, pieces.len() as int)
}

/// Whether a `gitdir` text names the `.git` of a worktree, compared by path
/// components: its last component is `.git` and the ones before it are the
/// worktree's.
pub open spec fn names_git_of(gitdir: Seq<char>, worktree: Seq<char>) -> bool {
    let parts = path_parts(trim(gitdir));
    parts.len() > 0 && parts.last() == ".git"@ && parts.drop_last() == path_parts(worktree)
}

/// Whether a metadata directory points at a worktree: its `gitdir` file
/// names the worktree's `.git`.
pub open spec fn points_at(e: MetadataEntry, worktree: Seq<char>) -> bool {
    e.is_dir && match e.gitdir {
        Some(g) => names_git_of(g@, worktree),
        None => false,
    }
}

/// The texts of a list of character lists.
pub open spec fn char_texts(v: Seq<Vec<char>>) -> Seq<Seq<char>> {
    v.map_values(|x: Vec<char>| x@)
}

fn path_parts_of(p: &Vec<char>) -> (r: Vec<Vec<char>>)
    ensures
        char_texts(r@) == path_parts(p@),
{
    let pieces = split_chars(p, '/');
    let ghost all = split_at_char(p@, '/');
    let mut out: Vec<Vec<char>> = Vec::new();
    if p.len() > 0 && p[0] == '/' {
        let slash = vec!['/'];
        assert(slash@ =~= seq!['/']);
        out.push(slash);
        assert(char_texts(out@) =~= seq![seq!['/']]);
    }
    let ghost root = char_texts(out@);
    assert(root =~= (if p@.len() > 0 && p@[0] == '/' {
        seq![seq!['/']]
    } else {
        Seq::<Seq<char>>::empty()
    }));
    let mut i: usize = 0;
    while i < pieces.len()
        invariant
            i <= pieces@.len(),
            pieces@.len() == all.len(),
            all == split_at_char(p@, '/'),
            forall|k: int| 0 <= k < pieces@.len() ==> #[trigger] pieces@[k]@ == all[k],
            char_texts(out@) == root + kept_parts(all, i as int),
        decreases pieces.len() - i,
    {
        let piece = &pieces[i];
        let dot = piece.len() == 1 && piece[0] == '.';
        proof {
            if piece@.len() == 1 {
                assert(dot == (all[i as int] =~= seq!['.']));
            }
        }
        if piece.len() == 0 || (dot && i != 0) {
        } else {
            let ghost before = out@;
            out.push(copy_chars(piece));
            assert(char_texts(out@) =~= char_texts(before).push(all[i as int]));
        }
        i += 1;
    }
    out
}

/// Whether a `gitdir` text names the `.git` of a worktree, by path
/// components.
fn names_git(gitdir: &str, worktree: &str) -> (r: bool)
    ensures
        r == names_git_of(gitdir@, worktree@),
{
    let g = path_parts_of(&trim_chars(&chars_of(gitdir)));
    let w = path_parts_of(&chars_of(worktree));
    let ghost gp = char_texts(g@);
    let ghost wp = char_texts(w@);
    if g.len() == 0 || g.len() - 1 != w.len() {
        proof {
            if gp.len() > 0 {
                assert(gp.drop_last().len() != wp.len());
            }
        }
        return false;
    }
    let git = chars_of(".git");
    if !crate::text::chars_eq(&g[g.len() - 1], &git) {
        assert(gp.last() == g@[g@.len() - 1]@);
        return false;
    }
    let mut i: usize = 0;
    while i < w.len()
        invariant
            i <= w@.len(),
            g@.len() == w@.len() + 1,
            gp == char_texts(g@),
            wp == char_texts(w@),
            gp == path_parts(trim(gitdir@)),
            wp == path_parts(worktree@),
            forall|k: int| 0 <= k < i ==> gp[k] == wp[k],
        decreases w.len() - i,
    {
        if !crate::text::chars_eq(&g[i], &w[i]) {
            assert(gp.drop_last()[i as int] != wp[i as int]);
            return false;
        }
        i += 1;
    }
    assert(gp.drop_last() =~= wp);
    true
}

/// The metadata directories that point at a worktree, by position.
pub open spec fn pointing(entries: Seq<MetadataEntry>, worktree: Seq<char>, n: int) -> Seq<usize>
    decreases n,
{
    if n <= 0 {
        seq![]
    } else if points_at(entries[n - 1], worktree) {
        pointing(entries, worktree, n - 1).push((n - 1) as usize)
    } else {
        pointing(entries, worktree, n - 1)
    }
}

/// The metadata directory to remove for a missing worktree: the one that
/// points at it; an error when none or several do.
pub fn stale_metadata_entry(entries: &Vec<MetadataEntry>, worktree_path: &str) -> (r: Result<
    String,
    StaleMetadataError,
>)
    ensures
        ({
            let m = pointing(entries@, worktree_path@, entries@.len() as int);
            &&& m.len() == 0 <==> r == Err::<String, StaleMetadataError>(
                StaleMetadataError::NotRegistered,
            )
            &&& m.len() > 1 <==> r == Err::<String, StaleMetadataError>(StaleMetadataError::Ambiguous)
            &&& m.len() == 1 ==> (r matches Ok(p) && p@ == entries@[m[0] as int].path@)
        }),
{
    let mut found: Vec<usize> = Vec::new();
    let mut i: usize = 0;
    while i < entries.len()
        invariant
            i <= entries@.len(),
            found@ == pointing(entries@, worktree_path@, i as int),
            forall|q: int| 0 <= q < found@.len() ==> #[trigger] found@[q] < i,
        decreases entries.len() - i,
    {
        let e = &entries[i];
        if e.is_dir {
            match &e.gitdir {
                Some(g) => {
                    if names_git(g.as_str(), worktree_path) {
                        found.push(i);
                    }
                },
                None => {},
            }
        }
        i += 1;
    }
    if found.len() == 0 {
        Err(StaleMetadataError::NotRegistered)
    } else if found.len() > 1 {
        Err(StaleMetadataError::Ambiguous)
    } else {
        Ok(entries[found[0]].path.clone())
    }
}

} // verus!
