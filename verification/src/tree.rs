//! The folder tree of the Files panel: every changed file with the
//! directories above it, in path order.
use vstd::prelude::*;

use crate::changes::{lemma_path_le_total, lemma_path_le_transitive, path_le};
use crate::model::{ChangedFile, FileTreeRow, FileTreeRowKind};
use crate::text::{chars_of, has_prefix, split_at_char, split_chars, string_of};

verus! {

/// The components of a path that name something: empty pieces, `.` and
/// `..` are left out.
pub open spec fn normal_pieces(pieces: Seq<Seq<char>>) -> Seq<Seq<char>>
    decreases pieces.len(),
{
    if pieces.len() == 0 {
        seq![]
    } else {
        let earlier = normal_pieces(pieces.drop_last());
        let p = pieces.last();
        if p.len() == 0 || p == "."@ || p == ".."@ {
            earlier
        } else {
            earlier.push(p)
        }
    }
}

/// Components joined with `/`.
pub open spec fn joined(pieces: Seq<Seq<char>>) -> Seq<char>
    decreases pieces.len(),
{
    if pieces.len() == 0 {
        seq![]
    } else if pieces.len() == 1 {
        pieces[0]
    } else {
        joined(pieces.drop_last()).push('/') + pieces.last()
    }
}

/// The path of a file in the tree: its named components joined with `/`.
pub open spec fn tree_path(path: Seq<char>) -> Seq<char> {
    joined(normal_pieces(split_at_char(path, '/')))
}

/// Whether `path` lies below the directory `dir`.
pub open spec fn below(path: Seq<char>, dir: Seq<char>) -> bool {
    has_prefix(path, dir.push('/'))
}

/// Whether a file already in the tree stands where a directory of `path`
/// would go.
pub open spec fn blocked(m: Map<Seq<char>, FileTreeRowKind>, path: Seq<char>) -> bool {
    exists|d: Seq<char>|
        #![trigger m.contains_key(d)]
        below(path, d) && m.contains_key(d) && m[d] == FileTreeRowKind::File
}

/// The tree after adding a file at `path`: nothing changes for an empty path
/// or one that a file blocks; otherwise the file replaces whatever was at
/// its path (dropping what lay below it) and its missing directories are
/// added.
pub open spec fn insert_node(m: Map<Seq<char>, FileTreeRowKind>, path: Seq<char>) -> Map<
    Seq<char>,
    FileTreeRowKind,
> {
    if path.len() == 0 || blocked(m, path) {
        m
    } else {
        Map::new(
            |k: Seq<char>| (m.contains_key(k) && !below(k, path) && k != path) || below(path, k) || k
                == path,
            |k: Seq<char>|
                if k == path {
                    FileTreeRowKind::File
                } else if m.contains_key(k) && !below(k, path) {
                    m[k]
                } else {
                    FileTreeRowKind::Directory
                },
        )
    }
}

/// The tree of some changed files.
pub open spec fn tree_nodes(files: Seq<ChangedFile>) -> Map<Seq<char>, FileTreeRowKind>
    decreases files.len(),
{
    if files.len() == 0 {
        Map::empty()
    } else {
        insert_node(tree_nodes(files.drop_last()), tree_path(files.last().path@))
    }
}

/// Rows as a map from path to kind.
pub open spec fn rows_map(rows: Seq<FileTreeRow>) -> Map<Seq<char>, FileTreeRowKind>
    decreases rows.len(),
{
    if rows.len() == 0 {
        Map::empty()
    } else {
        rows_map(rows.drop_last()).insert(rows.last().path@, rows.last().kind)
    }
}

/// No two rows share a path.
pub open spec fn paths_distinct(rows: Seq<FileTreeRow>) -> bool {
    forall|i: int, j: int|
        #![trigger rows[i], rows[j]]
        0 <= i < j < rows.len() ==> rows[i].path@ != rows[j].path@
}

/// Rows in path order, no two with one path.
pub open spec fn strictly_sorted(rows: Seq<FileTreeRow>) -> bool {
    forall|i: int, j: int|
        #![trigger rows[i], rows[j]]
        0 <= i < j < rows.len() ==> path_le(rows[i].path@, rows[j].path@) && rows[i].path@
            != rows[j].path@
}

proof fn lemma_rows_map(rows: Seq<FileTreeRow>)
    requires
        paths_distinct(rows),
    ensures
        forall|k: Seq<char>|
            rows_map(rows).contains_key(k) <==> exists|i: int|
                0 <= i < rows.len() && #[trigger] rows[i].path@ == k,
        forall|i: int|
            0 <= i < rows.len() ==> #[trigger] rows_map(rows)[rows[i].path@] == rows[i].kind,
    decreases rows.len(),
{
    if rows.len() > 0 {
        let rest = rows.drop_last();
        assert(paths_distinct(rest));
        lemma_rows_map(rest);
        assert forall|k: Seq<char>|
            rows_map(rows).contains_key(k) <==> exists|i: int|
                0 <= i < rows.len() && #[trigger] rows[i].path@ == k by {
            if rows_map(rest).contains_key(k) {
                let i = choose|i: int| 0 <= i < rest.len() && #[trigger] rest[i].path@ == k;
                assert(rows[i] == rest[i]);
            }
            if exists|i: int| 0 <= i < rows.len() && #[trigger] rows[i].path@ == k {
                let i = choose|i: int| 0 <= i < rows.len() && #[trigger] rows[i].path@ == k;
                if i < rows.len() - 1 {
                    assert(rest[i] == rows[i]);
                }
            }
        }
        assert forall|i: int| 0 <= i < rows.len() implies #[trigger] rows_map(rows)[rows[i].path@]
            == rows[i].kind by {
            if i < rows.len() - 1 {
                assert(rest[i] == rows[i]);
                assert(rows[i].path@ != rows.last().path@);
            }
        }
    }
}

/// Two row lists with distinct paths and the same rows, in any order, make
/// the same map.
proof fn lemma_rows_map_same(a: Seq<FileTreeRow>, b: Seq<FileTreeRow>)
    requires
        paths_distinct(a),
        paths_distinct(b),
        rows_within(a, b),
        rows_within(b, a),
    ensures
        rows_map(a) == rows_map(b),
{
    lemma_rows_map(a);
    lemma_rows_map(b);
    assert forall|k: Seq<char>| rows_map(a).contains_key(k) implies rows_map(b).contains_key(k)
        && rows_map(a)[k] == rows_map(b)[k] by {
        let i = choose|i: int| 0 <= i < a.len() && #[trigger] a[i].path@ == k;
        let j = choose|j: int| #![trigger b[j]] 0 <= j < b.len() && b[j] == a[i];
        assert(b[j].path@ == k);
    }
    assert forall|k: Seq<char>| rows_map(b).contains_key(k) implies rows_map(a).contains_key(k) by {
        let j = choose|j: int| 0 <= j < b.len() && #[trigger] b[j].path@ == k;
        let i = choose|i: int| #![trigger a[i]] 0 <= i < a.len() && a[i] == b[j];
        assert(a[i].path@ == k);
    }
    assert(rows_map(a) =~= rows_map(b));
}

fn named_path(path: &str) -> (r: Vec<char>)
    ensures
        r@ == tree_path(path@),
{
    let v = chars_of(path);
    let pieces = split_chars(&v, '/');
    let ghost ps = split_at_char(path@, '/');
    let mut out: Vec<char> = Vec::new();
    let ghost mut named: Seq<Seq<char>> = seq![];
    let mut started = false;
    let mut i: usize = 0;
    assert(ps.take(0) =~= Seq::<Seq<char>>::empty());
    while i < pieces.len()
        invariant
            i <= pieces@.len(),
            pieces@.len() == ps.len(),
            forall|q: int| 0 <= q < pieces@.len() ==> #[trigger] pieces@[q]@ == ps[q],
            named == normal_pieces(ps.take(i as int)),
            out@ == joined(named),
            started == (named.len() > 0),
        decreases pieces.len() - i,
    {
        assert(ps.take(i as int + 1).drop_last() =~= ps.take(i as int));
        assert(ps.take(i as int + 1).last() == ps[i as int]);
        let piece = &pieces[i];
        if piece.len() > 0 && !crate::text::eq_str(piece, ".") && !crate::text::eq_str(piece, "..") {
            let ghost before = named;
            if started {
                out.push('/');
            }
            let mut more = crate::text::copy_chars(piece);
            out.append(&mut more);
            proof {
                named = named.push(ps[i as int]);
                assert(named.drop_last() =~= before);
            }
            started = true;
        }
        i += 1;
    }
    assert(ps.take(pieces@.len() as int) =~= ps);
    out
}


proof fn lemma_below_at(path: Seq<char>, d: Seq<char>)
    ensures
        below(path, d) <==> (d.len() < path.len() && path[d.len() as int] == '/' && path.take(
            d.len() as int,
        ) == d),
{
    if below(path, d) {
        assert(path.take(d.len() as int + 1)[d.len() as int] == '/');
        assert(path.take(d.len() as int) =~= path.take(d.len() as int + 1).drop_last());
        assert(d.push('/').drop_last() =~= d);
    }
    if d.len() < path.len() && path[d.len() as int] == '/' && path.take(d.len() as int) == d {
        assert(path.take(d.len() as int + 1) =~= d.push('/'));
    }
}

fn copy_row(row: &FileTreeRow) -> (r: FileTreeRow)
    ensures
        r == *row,
{
    FileTreeRow { path: row.path.clone(), kind: row.kind }
}

fn below_exec(path: &Vec<char>, dir: &Vec<char>) -> (r: bool)
    ensures
        r == below(path@, dir@),
{
    proof {
        lemma_below_at(path@, dir@);
    }
    if dir.len() >= path.len() {
        return false;
    }
    if path[dir.len()] != '/' {
        return false;
    }
    let mut i: usize = 0;
    while i < dir.len()
        invariant
            i <= dir@.len(),
            dir@.len() < path@.len(),
            forall|j: int| 0 <= j < i ==> path@[j] == dir@[j],
        decreases dir.len() - i,
    {
        if path[i] != dir[i] {
            assert(path@.take(dir@.len() as int)[i as int] != dir@[i as int]);
            return false;
        }
        i += 1;
    }
    assert(path@.take(dir@.len() as int) =~= dir@);
    true
}

fn find_path(rows: &Vec<FileTreeRow>, p: &Vec<char>) -> (r: Option<usize>)
    ensures
        r matches Some(i) ==> i < rows@.len() && rows@[i as int].path@ == p@,
        r is None ==> forall|i: int| 0 <= i < rows@.len() ==> rows@[i].path@ != p@,
{
    let target = string_of(p);
    let mut i: usize = 0;
    while i < rows.len()
        invariant
            i <= rows@.len(),
            target@ == p@,
            forall|j: int| 0 <= j < i ==> rows@[j].path@ != p@,
        decreases rows.len() - i,
    {
        if rows[i].path == target {
            return Some(i);
        }
        i += 1;
    }
    None
}

fn is_blocked(nodes: &Vec<FileTreeRow>, key: &Vec<char>) -> (r: bool)
    requires
        paths_distinct(nodes@),
    ensures
        r == blocked(rows_map(nodes@), key@),
{
    let ghost m = rows_map(nodes@);
    proof {
        lemma_rows_map(nodes@);
    }
    let mut j: usize = 0;
    while j < key.len()
        invariant
            j <= key@.len(),
            m == rows_map(nodes@),
            paths_distinct(nodes@),
            forall|k: Seq<char>|
                m.contains_key(k) <==> exists|i: int| 0 <= i < nodes@.len() && #[trigger] nodes@[i].path@ == k,
            forall|i: int| 0 <= i < nodes@.len() ==> #[trigger] m[nodes@[i].path@] == nodes@[i].kind,
            forall|d: Seq<char>|
                d.len() < j && below(key@, d) ==> !(m.contains_key(d) && m[d] == FileTreeRowKind::File),
        decreases key.len() - j,
    {
        if key[j] == '/' {
            let d = crate::text::slice_chars(key, 0, j);
            match find_path(nodes, &d) {
                Some(i) => {
                    if nodes[i].kind == FileTreeRowKind::File {
                        proof {
                            lemma_below_at(key@, d@);
                            assert(m.contains_key(d@));
                        }
                        return true;
                    }
                    proof {
                        assert forall|e: Seq<char>|
                            e.len() < j + 1 && below(key@, e) implies !(m.contains_key(e) && m[e]
                            == FileTreeRowKind::File) by {
                            lemma_below_at(key@, e);
                            if e.len() == j {
                                assert(e =~= d@);
                            }
                        }
                    }
                },
                None => {
                    proof {
                        assert forall|e: Seq<char>|
                            e.len() < j + 1 && below(key@, e) implies !(m.contains_key(e) && m[e]
                            == FileTreeRowKind::File) by {
                            lemma_below_at(key@, e);
                            if e.len() == j {
                                assert(e =~= d@);
                            }
                        }
                    }
                },
            }
        } else {
            proof {
                assert forall|e: Seq<char>|
                    e.len() < j + 1 && below(key@, e) implies !(m.contains_key(e) && m[e]
                    == FileTreeRowKind::File) by {
                    lemma_below_at(key@, e);
                }
            }
        }
        j += 1;
    }
    proof {
        if blocked(m, key@) {
            let d = choose|d: Seq<char>|
                #![trigger m.contains_key(d)]
                below(key@, d) && m.contains_key(d) && m[d] == FileTreeRowKind::File;
            lemma_below_at(key@, d);
        }
    }
    false
}

/// The tree with a file added at `key` (a path already in tree form).
fn add_file(nodes: Vec<FileTreeRow>, key: &Vec<char>) -> (r: Vec<FileTreeRow>)
    requires
        paths_distinct(nodes@),
    ensures
        paths_distinct(r@),
        rows_map(r@) == insert_node(rows_map(nodes@), key@),
{
    if key.len() == 0 {
        return nodes;
    }
    if is_blocked(&nodes, key) {
        return nodes;
    }
    let ghost m = rows_map(nodes@);
    let ghost k = key@;
    proof {
        lemma_rows_map(nodes@);
    }
    let mut out: Vec<FileTreeRow> = Vec::new();
    let mut i: usize = 0;
    let ghost keep = |p: Seq<char>| !below(p, k) && p != k;
    assert(rows_map(out@) =~= Map::<Seq<char>, FileTreeRowKind>::empty());
    assert(rows_map(nodes@.take(0)) =~= Map::<Seq<char>, FileTreeRowKind>::empty());
    while i < nodes.len()
        invariant
            i <= nodes@.len(),
            k == key@,
            k.len() > 0,
            !blocked(m, k),
            m == rows_map(nodes@),
            paths_distinct(nodes@),
            paths_distinct(out@),
            rows_map(out@) == rows_map(nodes@.take(i as int)).restrict(
                Set::new(|p: Seq<char>| !below(p, k) && p != k),
            ),
        decreases nodes.len() - i,
    {
        let ghost before = out@;
        let ghost prefix = nodes@.take(i as int);
        assert(nodes@.take(i as int + 1).drop_last() =~= prefix);
        assert(nodes@.take(i as int + 1).last() == nodes@[i as int]);
        proof {
            assert(paths_distinct(prefix));
            lemma_rows_map(prefix);
            lemma_rows_map(before);
        }
        let path = chars_of(nodes[i].path.as_str());
        let inside = below_exec(&path, key);
        let same = crate::text::chars_eq(&path, key);
        if !inside && !same {
            proof {
                assert(!rows_map(prefix).contains_key(nodes@[i as int].path@)) by {
                    if rows_map(prefix).contains_key(nodes@[i as int].path@) {
                        let q = choose|q: int| 0 <= q < prefix.len() && #[trigger] prefix[q].path@
                            == nodes@[i as int].path@;
                        assert(prefix[q] == nodes@[q]);
                    }
                }
                assert(!rows_map(before).contains_key(nodes@[i as int].path@));
            }
            out.push(copy_row(&nodes[i]));
            proof {
                assert(out@.drop_last() =~= before);
                assert(out@.last() == nodes@[i as int]);
                assert forall|a: int, b: int| 0 <= a < b < out@.len() implies out@[a].path@ != out@[b].path@ by {
                    if b == out@.len() - 1 {
                        assert(out@[a] == before[a]);
                        assert(rows_map(before).contains_key(before[a].path@));
                    } else {
                        assert(out@[a] == before[a] && out@[b] == before[b]);
                    }
                }
            }
        }
        proof {
            assert(path@ == nodes@[i as int].path@);
            assert(rows_map(nodes@.take(i as int + 1)) == rows_map(prefix).insert(
                nodes@[i as int].path@,
                nodes@[i as int].kind,
            ));
            assert(rows_map(out@) =~= rows_map(nodes@.take(i as int + 1)).restrict(
                Set::new(|p: Seq<char>| !below(p, k) && p != k),
            ));
        }
        i += 1;
    }
    assert(nodes@.take(nodes@.len() as int) =~= nodes@);
    let ghost kept = out@;
    let mut j: usize = 0;
    while j < key.len()
        invariant
            j <= key@.len(),
            k == key@,
            k.len() > 0,
            m == rows_map(nodes@),
            paths_distinct(nodes@),
            paths_distinct(out@),
            !blocked(m, k),
            forall|p: Seq<char>|
                m.contains_key(p) <==> exists|q: int| 0 <= q < nodes@.len() && #[trigger] nodes@[q].path@ == p,
            rows_map(out@) == Map::new(
                |p: Seq<char>|
                    (m.contains_key(p) && !below(p, k) && p != k) || (below(k, p) && p.len() < j),
                |p: Seq<char>|
                    if m.contains_key(p) && !below(p, k) {
                        m[p]
                    } else {
                        FileTreeRowKind::Directory
                    },
            ),
        decreases key.len() - j,
    {
        if key[j] == '/' {
            let d = crate::text::slice_chars(key, 0, j);
            proof {
                assert(d@ =~= k.take(j as int));
                lemma_below_at(k, d@);
                lemma_below_at(d@, k);
                lemma_rows_map(out@);
            }
            match find_path(&nodes, &d) {
                Some(_) => {},
                None => {
                    let ghost before = out@;
                    proof {
                        assert(!m.contains_key(d@));
                        assert(!rows_map(before).contains_key(d@));
                    }
                    out.push(FileTreeRow { path: string_of(&d), kind: FileTreeRowKind::Directory });
                    proof {
                        assert(out@.drop_last() =~= before);
                        assert forall|a: int, b: int| 0 <= a < b < out@.len() implies out@[a].path@
                            != out@[b].path@ by {
                            if b == out@.len() - 1 {
                                assert(out@[a] == before[a]);
                                assert(rows_map(before).contains_key(before[a].path@));
                            } else {
                                assert(out@[a] == before[a] && out@[b] == before[b]);
                            }
                        }
                    }
                },
            }
            proof {
                assert forall|p: Seq<char>| below(k, p) && p.len() < j + 1 implies (below(k, p) && p.len()
                    < j) || p == d@ by {
                    lemma_below_at(k, p);
                    if p.len() == j {
                        assert(p =~= d@);
                    }
                }
                assert(rows_map(out@) =~= Map::new(
                    |p: Seq<char>|
                        (m.contains_key(p) && !below(p, k) && p != k) || (below(k, p) && p.len() < j
                            + 1),
                    |p: Seq<char>|
                        if m.contains_key(p) && !below(p, k) {
                            m[p]
                        } else {
                            FileTreeRowKind::Directory
                        },
                ));
            }
        } else {
            proof {
                assert forall|p: Seq<char>| below(k, p) && p.len() < j + 1 implies p.len() < j by {
                    lemma_below_at(k, p);
                }
                assert(rows_map(out@) =~= Map::new(
                    |p: Seq<char>|
                        (m.contains_key(p) && !below(p, k) && p != k) || (below(k, p) && p.len() < j
                            + 1),
                    |p: Seq<char>|
                        if m.contains_key(p) && !below(p, k) {
                            m[p]
                        } else {
                            FileTreeRowKind::Directory
                        },
                ));
            }
        }
        j += 1;
    }
    let ghost before = out@;
    proof {
        lemma_rows_map(before);
        assert(!rows_map(before).contains_key(k)) by {
            if rows_map(before).contains_key(k) {
                lemma_below_at(k, k);
            }
        }
    }
    out.push(FileTreeRow { path: string_of(key), kind: FileTreeRowKind::File });
    proof {
        assert(out@.drop_last() =~= before);
        assert(j == key@.len());
        assert forall|a: int, b: int| 0 <= a < b < out@.len() implies out@[a].path@ != out@[b].path@ by {
            if b == out@.len() - 1 {
                assert(out@[a] == before[a]);
                assert(rows_map(before).contains_key(before[a].path@));
            } else {
                assert(out@[a] == before[a] && out@[b] == before[b]);
            }
        }
        assert forall|p: Seq<char>| below(k, p) implies p.len() < k.len() by {
            lemma_below_at(k, p);
        }
        assert(rows_map(out@) =~= insert_node(m, k));
    }
    out
}


fn path_le_rows(a: &FileTreeRow, b: &FileTreeRow) -> (r: bool)
    ensures
        r == path_le(a.path@, b.path@),
{
    let x = chars_of(a.path.as_str());
    let y = chars_of(b.path.as_str());
    let mut i: usize = 0;
    assert(x@.skip(0) =~= x@);
    assert(y@.skip(0) =~= y@);
    while i < x.len() && i < y.len()
        invariant
            i <= x@.len(),
            i <= y@.len(),
            x@ == a.path@,
            y@ == b.path@,
            path_le(x@, y@) == path_le(x@.skip(i as int), y@.skip(i as int)),
        decreases x.len() - i,
    {
        let cx = x[i];
        let cy = y[i];
        assert(x@.skip(i as int)[0] == cx);
        assert(y@.skip(i as int)[0] == cy);
        if cx != cy {
            if cx == '/' {
                return true;
            } else if cy == '/' {
                return false;
            } else {
                return cx < cy;
            }
        }
        assert(x@.skip(i as int).drop_first() =~= x@.skip(i as int + 1));
        assert(y@.skip(i as int).drop_first() =~= y@.skip(i as int + 1));
        i += 1;
    }
    i == x.len()
}

/// Whether every row of `a` is a row of `b`.
pub open spec fn rows_within(a: Seq<FileTreeRow>, b: Seq<FileTreeRow>) -> bool {
    forall|i: int|
        #![trigger a[i]]
        0 <= i < a.len() ==> exists|j: int| #![trigger b[j]] 0 <= j < b.len() && b[j] == a[i]
}

proof fn lemma_new_row_absent(before: Seq<FileTreeRow>, nodes: Seq<FileTreeRow>, i: int)
    requires
        0 <= i < nodes.len(),
        paths_distinct(nodes),
        rows_within(before, nodes.take(i)),
    ensures
        forall|q: int| 0 <= q < before.len() ==> #[trigger] before[q].path@ != nodes[i].path@,
{
    assert forall|q: int| 0 <= q < before.len() implies #[trigger] before[q].path@
        != nodes[i].path@ by {
        let t = choose|t: int| #![trigger nodes.take(i)[t]]
            0 <= t < nodes.take(i).len() && nodes.take(i)[t] == before[q];
        assert(nodes.take(i)[t] == nodes[t]);
    }
}

proof fn lemma_insert_index(s: Seq<FileTreeRow>, pos: int, x: FileTreeRow, k: int)
    requires
        0 <= pos <= s.len(),
        0 <= k <= s.len(),
    ensures
        k < pos ==> s.insert(pos, x)[k] == s[k],
        k == pos ==> s.insert(pos, x)[k] == x,
        k > pos ==> s.insert(pos, x)[k] == s[k - 1],
{
    s.insert_ensures(pos, x);
    if k > pos {
        assert(s.insert(pos, x)[(k - 1) + 1] == s[k - 1]);
    }
}

proof fn lemma_sorted_insert(before: Seq<FileTreeRow>, row: FileTreeRow, pos: int)
    requires
        strictly_sorted(before),
        0 <= pos <= before.len(),
        forall|q: int| 0 <= q < pos ==> !path_le(row.path@, #[trigger] before[q].path@),
        pos < before.len() ==> path_le(row.path@, before[pos].path@),
        forall|q: int| 0 <= q < before.len() ==> #[trigger] before[q].path@ != row.path@,
    ensures
        strictly_sorted(before.insert(pos, row)),
        paths_distinct(before.insert(pos, row)),
{
    before.insert_ensures(pos, row);
    let out = before.insert(pos, row);
    assert forall|a: int, b: int| 0 <= a < b < out.len() implies path_le(
        out[a].path@,
        out[b].path@,
    ) && out[a].path@ != out[b].path@ by {
        lemma_insert_index(before, pos, row, a);
        lemma_insert_index(before, pos, row, b);
        if b < pos {
            assert(out[a] == before[a] && out[b] == before[b]);
        } else if b == pos {
            assert(out[a] == before[a]);
            lemma_path_le_total(row.path@, before[a].path@);
        } else if a == pos {
            assert(out[b] == before[b - 1]);
            if b - 1 > pos {
                assert(path_le(before[pos].path@, before[b - 1].path@));
                lemma_path_le_transitive(row.path@, before[pos].path@, before[b - 1].path@);
            }
        } else if a < pos {
            assert(out[a] == before[a] && out[b] == before[b - 1]);
        } else {
            assert(out[a] == before[a - 1] && out[b] == before[b - 1]);
        }
    }
}

proof fn lemma_insert_within(
    before: Seq<FileTreeRow>,
    row: FileTreeRow,
    pos: int,
    nodes: Seq<FileTreeRow>,
    i: int,
)
    requires
        0 <= pos <= before.len(),
        0 <= i < nodes.len(),
        row == nodes[i],
        rows_within(before, nodes.take(i)),
        rows_within(nodes.take(i), before),
    ensures
        rows_within(before.insert(pos, row), nodes.take(i + 1)),
        rows_within(nodes.take(i + 1), before.insert(pos, row)),
{
    before.insert_ensures(pos, row);
    let out = before.insert(pos, row);
    let taken = nodes.take(i + 1);
    let prev = nodes.take(i);
    assert forall|a: int| #![trigger out[a]] 0 <= a < out.len() implies exists|t: int|
        #![trigger taken[t]]
        0 <= t < taken.len() && taken[t] == out[a] by {
        lemma_insert_index(before, pos, row, a);
        if a < pos {
            assert(out[a] == before[a]);
            let t = choose|t: int| #![trigger prev[t]] 0 <= t < prev.len() && prev[t] == before[a];
            assert(taken[t] == prev[t]);
        } else if a == pos {
            assert(taken[i] == out[a]);
        } else {
            assert(out[a] == before[a - 1]);
            let t = choose|t: int| #![trigger prev[t]] 0 <= t < prev.len() && prev[t] == before[a - 1];
            assert(taken[t] == prev[t]);
        }
    }
    assert forall|t: int| #![trigger taken[t]] 0 <= t < taken.len() implies exists|a: int|
        #![trigger out[a]]
        0 <= a < out.len() && out[a] == taken[t] by {
        if t < i {
            assert(taken[t] == prev[t]);
            let a = choose|a: int| #![trigger before[a]] 0 <= a < before.len() && before[a] == prev[t];
            lemma_insert_index(before, pos, row, a);
            lemma_insert_index(before, pos, row, a + 1);
            if a < pos {
                assert(out[a] == before[a]);
            } else {
                assert(out[a + 1] == before[a]);
            }
        } else {
            lemma_insert_index(before, pos, row, pos);
            assert(out[pos] == taken[t]);
        }
    }
}

fn sort_rows(nodes: Vec<FileTreeRow>) -> (r: Vec<FileTreeRow>)
    requires
        paths_distinct(nodes@),
    ensures
        strictly_sorted(r@),
        paths_distinct(r@),
        rows_map(r@) == rows_map(nodes@),
{
    let mut out: Vec<FileTreeRow> = Vec::new();
    let mut i: usize = 0;
    let n = nodes.len();
    while i < n
        invariant
            n == nodes@.len(),
            i <= n,
            paths_distinct(nodes@),
            strictly_sorted(out@),
            rows_within(out@, nodes@.take(i as int)),
            rows_within(nodes@.take(i as int), out@),
        decreases n - i,
    {
        let row = copy_row(&nodes[i]);
        let mut pos: usize = 0;
        while pos < out.len() && !path_le_rows(&row, &out[pos])
            invariant
                pos <= out@.len(),
                forall|q: int| 0 <= q < pos ==> !path_le(row.path@, #[trigger] out@[q].path@),
            decreases out.len() - pos,
        {
            pos += 1;
        }
        let ghost before = out@;
        proof {
            lemma_new_row_absent(before, nodes@, i as int);
            lemma_sorted_insert(before, row, pos as int);
            lemma_insert_within(before, row, pos as int, nodes@, i as int);
        }
        out.insert(pos, row);
        i += 1;
    }
    assert(nodes@.take(n as int) =~= nodes@);
    assert(paths_distinct(out@));
    proof {
        lemma_rows_map_same(out@, nodes@);
    }
    out
}

/// The folder tree of some changed files: each file's path with the
/// directories above it, as rows in path order. A file whose directory
/// would be another file is left out, and a file at the path of a directory
/// replaces it and what lay below it.
pub fn build_tree(files: &Vec<ChangedFile>) -> (r: Vec<FileTreeRow>)
    ensures
        strictly_sorted(r@),
        rows_map(r@) == tree_nodes(files@),
{
    let mut nodes: Vec<FileTreeRow> = Vec::new();
    let mut i: usize = 0;
    assert(files@.take(0) =~= Seq::<ChangedFile>::empty());
    assert(rows_map(nodes@) =~= Map::<Seq<char>, FileTreeRowKind>::empty());
    while i < files.len()
        invariant
            i <= files@.len(),
            paths_distinct(nodes@),
            rows_map(nodes@) == tree_nodes(files@.take(i as int)),
        decreases files.len() - i,
    {
        assert(files@.take(i as int + 1).drop_last() =~= files@.take(i as int));
        assert(files@.take(i as int + 1).last() == files@[i as int]);
        let key = named_path(files[i].path.as_str());
        nodes = add_file(nodes, &key);
        i += 1;
    }
    assert(files@.take(files@.len() as int) =~= files@);
    sort_rows(nodes)
}


proof fn lemma_below_transitive(a: Seq<char>, b: Seq<char>, c: Seq<char>)
    requires
        below(a, b),
        below(b, c),
    ensures
        below(a, c),
{
    lemma_below_at(a, b);
    lemma_below_at(b, c);
    lemma_below_at(a, c);
    assert(a.take(c.len() as int) =~= b.take(c.len() as int));
    assert(a[c.len() as int] == b[c.len() as int]);
}

/// Every directory above a node of the tree is a directory node of the tree.
pub open spec fn closed_under_directories(m: Map<Seq<char>, FileTreeRowKind>) -> bool {
    forall|k: Seq<char>, d: Seq<char>|
        #![trigger m.contains_key(k), below(k, d)]
        m.contains_key(k) && below(k, d) ==> m.contains_key(d) && m[d] == FileTreeRowKind::Directory
}

proof fn lemma_insert_closed(m: Map<Seq<char>, FileTreeRowKind>, key: Seq<char>)
    requires
        closed_under_directories(m),
    ensures
        closed_under_directories(insert_node(m, key)),
{
    if !(key.len() == 0 || blocked(m, key)) {
        let n = insert_node(m, key);
        assert forall|k: Seq<char>, d: Seq<char>| n.contains_key(k) && below(k, d) implies n.contains_key(
            d,
        ) && n[d] == FileTreeRowKind::Directory by {
            lemma_below_at(k, d);
            if k == key || below(key, k) {
                if below(key, k) {
                    lemma_below_transitive(key, k, d);
                }
                assert(below(key, d));
                lemma_below_at(key, d);
                lemma_below_at(d, key);
                if m.contains_key(d) && m[d] == FileTreeRowKind::File {
                    assert(blocked(m, key));
                }
            } else {
                assert(m.contains_key(k));
                assert(m.contains_key(d));
                if below(d, key) {
                    lemma_below_transitive(k, d, key);
                }
                if d == key {
                    assert(below(k, key));
                }
            }
        }
    }
}

/// The tree holds every directory above each of its nodes, as a directory.
pub proof fn lemma_tree_holds_its_directories(files: Seq<ChangedFile>)
    ensures
        closed_under_directories(tree_nodes(files)),
    decreases files.len(),
{
    if files.len() > 0 {
        lemma_tree_holds_its_directories(files.drop_last());
        lemma_insert_closed(tree_nodes(files.drop_last()), tree_path(files.last().path@));
    }
}

} // verus!
