//! The drawn line of one row of the folder tree: the guide marks of its
//! ancestors, its own branch mark and its name.
use vstd::prelude::*;

use crate::model::FileTreeRow;
use crate::text::{chars_of, copy_chars, split_at_char, split_chars, string_of};
use crate::tree::normal_pieces;

verus! {

/// The named components of a path, as `Path::components` reads a relative
/// path.
pub open spec fn comps(path: Seq<char>) -> Seq<Seq<char>> {
    normal_pieces(split_at_char(path, '/'))
}

/// Character views of a list of pieces.
pub open spec fn pieces_view(v: Seq<Vec<char>>) -> Seq<Seq<char>> {
    v.map_values(|x: Vec<char>| x@)
}

/// `Path::parent`, on components: none for a path without components.
pub open spec fn parent_of(c: Seq<Seq<char>>) -> Option<Seq<Seq<char>>> {
    if c.len() == 0 {
        None
    } else {
        Some(c.drop_last())
    }
}

/// The first of the first `n` rows whose path has the components `c`.
pub open spec fn first_row_with(tree: Seq<FileTreeRow>, c: Seq<Seq<char>>, n: int) -> Option<int>
    decreases n,
{
    if n <= 0 {
        None
    } else {
        match first_row_with(tree, c, n - 1) {
            Some(i) => Some(i),
            None => if comps(tree[n - 1].path@) == c {
                Some(n - 1)
            } else {
                None
            },
        }
    }
}

/// The row of the path `c`, or the first row where the tree has none.
pub open spec fn row_of_or_first(tree: Seq<FileTreeRow>, c: Seq<Seq<char>>) -> int {
    match first_row_with(tree, c, tree.len() as int) {
        Some(i) => i,
        None => 0,
    }
}

/// Whether a shown row after `after` is another child of the parent of `c`.
pub open spec fn sibling_after(
    tree: Seq<FileTreeRow>,
    visible: Seq<usize>,
    c: Seq<Seq<char>>,
    after: int,
) -> bool {
    exists|j: int|
        #![trigger visible[j]]
        0 <= j < visible.len() && visible[j] > after && parent_of(comps(tree[visible[j] as int].path@))
            == parent_of(c) && comps(tree[visible[j] as int].path@) != c
}

/// The guide drawn for the ancestor `c.take(d)`: a bar while that folder
/// has a later sibling on screen, blank otherwise.
pub open spec fn guide(tree: Seq<FileTreeRow>, visible: Seq<usize>, c: Seq<Seq<char>>, d: int) -> Seq<
    char,
> {
    if sibling_after(tree, visible, c.take(d), row_of_or_first(tree, c.take(d))) {
        seq!['│', ' ', ' ', ' ']
    } else {
        seq![' ', ' ', ' ', ' ']
    }
}

/// The guides of the ancestors at depths `1 .. k`.
pub open spec fn guides(tree: Seq<FileTreeRow>, visible: Seq<usize>, c: Seq<Seq<char>>, k: int) -> Seq<
    char,
>
    decreases k,
{
    if k <= 1 {
        seq![]
    } else {
        guides(tree, visible, c, k - 1) + guide(tree, visible, c, k - 1)
    }
}

/// The line drawn for row `row` of the tree among the shown rows `visible`.
pub open spec fn tree_label_text(tree: Seq<FileTreeRow>, row: int, visible: Seq<usize>) -> Seq<
    char,
> {
    let path = tree[row].path@;
    let c = comps(path);
    let branch = if sibling_after(tree, visible, c, row) {
        seq!['├', '─', '─', ' ']
    } else {
        seq!['└', '─', '─', ' ']
    };
    let name = if c.len() > 0 {
        c.last()
    } else {
        path
    };
    guides(tree, visible, c, c.len() as int) + branch + name
}

fn path_components(path: &String) -> (r: Vec<Vec<char>>)
    ensures
        pieces_view(r@) == comps(path@),
{
    let v = chars_of(path.as_str());
    let pieces = split_chars(&v, '/');
    let ghost ps = split_at_char(path@, '/');
    let mut out: Vec<Vec<char>> = Vec::new();
    let mut i: usize = 0;
    assert(ps.take(0) =~= Seq::<Seq<char>>::empty());
    assert(pieces_view(out@) =~= normal_pieces(ps.take(0)));
    while i < pieces.len()
        invariant
            i <= pieces@.len(),
            pieces@.len() == ps.len(),
            forall|q: int| 0 <= q < pieces@.len() ==> #[trigger] pieces@[q]@ == ps[q],
            pieces_view(out@) == normal_pieces(ps.take(i as int)),
        decreases pieces.len() - i,
    {
        assert(ps.take(i as int + 1).drop_last() =~= ps.take(i as int));
        assert(ps.take(i as int + 1).last() == ps[i as int]);
        let piece = &pieces[i];
        if piece.len() > 0 && !crate::text::eq_str(piece, ".") && !crate::text::eq_str(piece, "..") {
            let ghost before = out@;
            out.push(copy_chars(piece));
            assert(pieces_view(out@) =~= pieces_view(before).push(ps[i as int]));
        }
        i += 1;
    }
    assert(ps.take(pieces@.len() as int) =~= ps);
    out
}

fn same_prefix(a: &Vec<Vec<char>>, alen: usize, b: &Vec<Vec<char>>, blen: usize) -> (r: bool)
    requires
        alen <= a@.len(),
        blen <= b@.len(),
    ensures
        r == (pieces_view(a@).take(alen as int) == pieces_view(b@).take(blen as int)),
{
    let ghost pa = pieces_view(a@).take(alen as int);
    let ghost pb = pieces_view(b@).take(blen as int);
    if alen != blen {
        assert(pa.len() != pb.len());
        return false;
    }
    let mut i: usize = 0;
    while i < alen
        invariant
            alen == blen,
            alen <= a@.len(),
            blen <= b@.len(),
            i <= alen,
            pa == pieces_view(a@).take(alen as int),
            pb == pieces_view(b@).take(blen as int),
            forall|k: int| 0 <= k < i ==> pa[k] == pb[k],
        decreases alen - i,
    {
        if !crate::text::chars_eq(&a[i], &b[i]) {
            assert(pa[i as int] != pb[i as int]);
            return false;
        }
        i += 1;
    }
    assert(pa =~= pb);
    true
}

fn row_of_components(tree: &Vec<FileTreeRow>, c: &Vec<Vec<char>>, n: usize) -> (r: usize)
    requires
        n <= c@.len(),
    ensures
        r == row_of_or_first(tree@, pieces_view(c@).take(n as int)),
{
    let ghost want = pieces_view(c@).take(n as int);
    let mut i: usize = 0;
    while i < tree.len()
        invariant
            i <= tree@.len(),
            n <= c@.len(),
            want == pieces_view(c@).take(n as int),
            first_row_with(tree@, want, i as int) is None,
        decreases tree.len() - i,
    {
        let pc = path_components(&tree[i].path);
        if same_prefix(&pc, pc.len(), c, n) {
            assert(pieces_view(pc@).take(pc@.len() as int) =~= pieces_view(pc@));
            assert(first_row_with(tree@, want, i as int + 1) == Some(i as int));
            proof {
                lemma_first_row_stays(tree@, want, i as int + 1, tree@.len() as int);
            }
            return i;
        }
        assert(pieces_view(pc@).take(pc@.len() as int) =~= pieces_view(pc@));
        i += 1;
    }
    0
}

proof fn lemma_first_row_stays(tree: Seq<FileTreeRow>, c: Seq<Seq<char>>, m: int, n: int)
    requires
        0 <= m <= n,
        first_row_with(tree, c, m) is Some,
    ensures
        first_row_with(tree, c, n) == first_row_with(tree, c, m),
    decreases n - m,
{
    if m < n {
        lemma_first_row_stays(tree, c, m, n - 1);
    }
}

fn has_sibling_after(
    tree: &Vec<FileTreeRow>,
    visible: &Vec<usize>,
    c: &Vec<Vec<char>>,
    n: usize,
    after: usize,
) -> (r: bool)
    requires
        n <= c@.len(),
        forall|j: int| 0 <= j < visible@.len() ==> #[trigger] visible@[j] < tree@.len(),
    ensures
        r == sibling_after(tree@, visible@, pieces_view(c@).take(n as int), after as int),
{
    let ghost want = pieces_view(c@).take(n as int);
    let mut j: usize = 0;
    while j < visible.len()
        invariant
            j <= visible@.len(),
            n <= c@.len(),
            want == pieces_view(c@).take(n as int),
            forall|k: int| 0 <= k < visible@.len() ==> #[trigger] visible@[k] < tree@.len(),
            forall|k: int|
                #![trigger visible@[k]]
                0 <= k < j ==> !(visible@[k] > after && parent_of(
                    comps(tree@[visible@[k] as int].path@),
                ) == parent_of(want) && comps(tree@[visible@[k] as int].path@) != want),
        decreases visible.len() - j,
    {
        let index = visible[j];
        if index > after {
            let pc = path_components(&tree[index].path);
            let ghost cv = pieces_view(pc@);
            assert(pieces_view(pc@).take(pc@.len() as int) =~= cv);
            let same_parent = if pc.len() == 0 {
                n == 0
            } else {
                n > 0 && same_prefix(&pc, pc.len() - 1, c, n - 1)
            };
            proof {
                assert(cv.take(cv.len() - 1) =~= cv.drop_last());
                if n > 0 {
                    assert(pieces_view(c@).take(n - 1) =~= want.drop_last());
                }
            }
            if same_parent && !same_prefix(&pc, pc.len(), c, n) {
                assert(visible@[j as int] == index);
                return true;
            }
        }
        j += 1;
    }
    false
}

fn push_mark(out: &mut Vec<char>, a: char, b: char, c: char, d: char)
    ensures
        final(out)@ == old(out)@ + seq![a, b, c, d],
{
    out.push(a);
    out.push(b);
    out.push(c);
    out.push(d);
    assert(final(out)@ =~= old(out)@ + seq![a, b, c, d]);
}

/// The line of row `row_index` in the Files panel: a guide for each folder
/// above it, then `├── ` where a later shown row shares its folder and
/// `└── ` where none does, then its name.
pub fn tree_label(tree: &Vec<FileTreeRow>, row_index: usize, visible_rows: &Vec<usize>) -> (r: String)
    requires
        row_index < tree@.len(),
        forall|j: int| 0 <= j < visible_rows@.len() ==> #[trigger] visible_rows@[j] < tree@.len(),
    ensures
        r@ == tree_label_text(tree@, row_index as int, visible_rows@),
{
    let ghost t = tree@;
    let ghost vis = visible_rows@;
    let c = path_components(&tree[row_index].path);
    let ghost cv = pieces_view(c@);
    let depth = c.len();
    let mut out: Vec<char> = Vec::new();
    let mut d: usize = 1;
    while d < depth
        invariant
            1 <= d,
            depth == c@.len(),
            d <= depth || d == 1,
            cv == pieces_view(c@),
            t == tree@,
            vis == visible_rows@,
            forall|j: int| 0 <= j < vis.len() ==> #[trigger] vis[j] < t.len(),
            out@ == guides(t, vis, cv, d as int),
        decreases depth - d,
    {
        let pos = row_of_components(tree, &c, d);
        let later = has_sibling_after(tree, visible_rows, &c, d, pos);
        if later {
            push_mark(&mut out, '│', ' ', ' ', ' ');
        } else {
            push_mark(&mut out, ' ', ' ', ' ', ' ');
        }
        d += 1;
    }
    proof {
        assert(cv.len() == depth);
        if depth == 0 {
            assert(guides(t, vis, cv, 1) == Seq::<char>::empty());
            assert(guides(t, vis, cv, 0) == Seq::<char>::empty());
            assert(out@ == guides(t, vis, cv, 0));
        } else {
            assert(d == depth);
            assert(out@ == guides(t, vis, cv, depth as int));
        }
    }
    assert(cv.take(depth as int) =~= cv);
    let own = has_sibling_after(tree, visible_rows, &c, depth, row_index);
    if own {
        push_mark(&mut out, '├', '─', '─', ' ');
    } else {
        push_mark(&mut out, '└', '─', '─', ' ');
    }
    let mut name = if depth > 0 {
        copy_chars(&c[depth - 1])
    } else {
        chars_of(tree[row_index].path.as_str())
    };
    out.append(&mut name);
    string_of(&out)
}

} // verus!
