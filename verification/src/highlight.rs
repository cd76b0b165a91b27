//! Diff search highlighting: a line cut into pieces, each piece either a
//! match of the query, compared without case, or the text between matches.
use vstd::prelude::*;

use crate::search::{lowercase_str, occurs_at};
use crate::text::{chars_of, owned, slice_chars, string_of};

verus! {

/// A piece of a highlighted line.
#[derive(Clone, Debug, PartialEq, Eq)]
pub struct Segment {
    pub text: String,
    pub matched: bool,
}

impl View for Segment {
    type V = (Seq<char>, bool);

    open spec fn view(&self) -> (Seq<char>, bool) {
        (self.text@, self.matched)
    }
}

/// The views of a list of pieces.
pub open spec fn segments_view(v: Seq<Segment>) -> Seq<(Seq<char>, bool)> {
    v.map_values(|s: Segment| s@)
}

/// The first place at or after `from` where `needle` occurs in `hay`.
pub open spec fn first_occurrence(hay: Seq<char>, needle: Seq<char>, from: int) -> Option<int>
    decreases hay.len() - from,
{
    if from < 0 || from >= hay.len() || from + needle.len() > hay.len() {
        None
    } else if occurs_at(hay, needle, from) {
        Some(from)
    } else {
        first_occurrence(hay, needle, from + 1)
    }
}

/// The first occurrence lies at or after its start and fits in the text.
pub proof fn lemma_first_occurrence(hay: Seq<char>, needle: Seq<char>, from: int)
    ensures
        first_occurrence(hay, needle, from) matches Some(p) ==> from <= p && p + needle.len()
            <= hay.len() && occurs_at(hay, needle, p),
    decreases hay.len() - from,
{
    if from >= 0 && from < hay.len() && from + needle.len() <= hay.len() && !occurs_at(hay, needle, from) {
        lemma_first_occurrence(hay, needle, from + 1);
    }
}

proof fn lemma_skip_misses(hay: Seq<char>, needle: Seq<char>, from: int, to: int)
    requires
        0 <= from <= to,
        to + needle.len() <= hay.len() + 1,
        forall|q: int| from <= q < to ==> !occurs_at(hay, needle, q),
    ensures
        first_occurrence(hay, needle, from) == first_occurrence(hay, needle, to),
    decreases to - from,
{
    if from < to {
        lemma_skip_misses(hay, needle, from + 1, to);
    }
}

/// The pieces of `text` from position `from` on, where `lower_text` is its
/// lowercase form of the same length and `lower_query` the lowercase query:
/// the text before each match, then the match, matches taken leftmost
/// first and without overlap.
pub open spec fn pieces_from(text: Seq<char>, lower_text: Seq<char>, lower_query: Seq<char>, from: int) -> Seq<
    (Seq<char>, bool),
>
    decreases text.len() - from,
{
    if lower_query.len() == 0 || from < 0 || lower_text.len() != text.len() || from > text.len() {
        seq![]
    } else {
        match first_occurrence(lower_text, lower_query, from) {
            None => if from < text.len() {
                seq![(text.subrange(from, text.len() as int), false)]
            } else {
                seq![]
            },
            Some(p) => {
                proof {
                    lemma_first_occurrence(lower_text, lower_query, from);
                }
                let before: Seq<(Seq<char>, bool)> = if p > from {
                    seq![(text.subrange(from, p), false)]
                } else {
                    seq![]
                };
                before + seq![(text.subrange(p, p + lower_query.len()), true)] + pieces_from(
                    text,
                    lower_text,
                    lower_query,
                    p + lower_query.len(),
                )
            },
        }
    }
}

/// The texts of some pieces, one after another.
pub open spec fn joined_pieces(pieces: Seq<(Seq<char>, bool)>) -> Seq<char>
    decreases pieces.len(),
{
    if pieces.len() == 0 {
        seq![]
    } else {
        joined_pieces(pieces.drop_last()) + pieces.last().0
    }
}

proof fn lemma_joined_append(a: Seq<(Seq<char>, bool)>, b: Seq<(Seq<char>, bool)>)
    ensures
        joined_pieces(a + b) == joined_pieces(a) + joined_pieces(b),
    decreases b.len(),
{
    if b.len() == 0 {
        assert(a + b =~= a);
        assert(joined_pieces(a) + joined_pieces(b) =~= joined_pieces(a));
    } else {
        lemma_joined_append(a, b.drop_last());
        assert((a + b).drop_last() =~= a + b.drop_last());
        assert(joined_pieces(a) + joined_pieces(b.drop_last()) + b.last().0 =~= joined_pieces(a) + (
        joined_pieces(b.drop_last()) + b.last().0));
    }
}

/// Highlighting keeps the line: its pieces, one after another, are the line
/// from the start on; and every marked piece is the text at a place where
/// the lowercase line holds the lowercase query.
pub proof fn lemma_pieces_rebuild_the_line(
    text: Seq<char>,
    lower_text: Seq<char>,
    lower_query: Seq<char>,
    from: int,
)
    requires
        lower_text.len() == text.len(),
        lower_query.len() > 0,
        0 <= from <= text.len(),
    ensures
        joined_pieces(pieces_from(text, lower_text, lower_query, from)) == text.subrange(
            from,
            text.len() as int,
        ),
        forall|i: int|
            0 <= i < pieces_from(text, lower_text, lower_query, from).len() && (#[trigger] pieces_from(
                text,
                lower_text,
                lower_query,
                from,
            )[i]).1 ==> exists|p: int|
                #![trigger occurs_at(lower_text, lower_query, p)]
                occurs_at(lower_text, lower_query, p) && pieces_from(text, lower_text, lower_query, from)[i].0
                    == text.subrange(p, p + lower_query.len()),
    decreases text.len() - from,
{
    let ps = pieces_from(text, lower_text, lower_query, from);
    match first_occurrence(lower_text, lower_query, from) {
        None => {
            if from < text.len() {
                assert(joined_pieces(ps) =~= joined_pieces(ps.drop_last()) + ps.last().0);
                assert(ps.drop_last() =~= Seq::<(Seq<char>, bool)>::empty());
            } else {
                assert(text.subrange(from, text.len() as int) =~= Seq::<char>::empty());
            }
        },
        Some(p) => {
            lemma_first_occurrence(lower_text, lower_query, from);
            let end = p + lower_query.len();
            lemma_pieces_rebuild_the_line(text, lower_text, lower_query, end);
            let before: Seq<(Seq<char>, bool)> = if p > from {
                seq![(text.subrange(from, p), false)]
            } else {
                seq![]
            };
            let hit: Seq<(Seq<char>, bool)> = seq![(text.subrange(p, end), true)];
            let rest = pieces_from(text, lower_text, lower_query, end);
            assert(ps == before + hit + rest);
            lemma_joined_append(before + hit, rest);
            lemma_joined_append(before, hit);
            assert(joined_pieces(hit) =~= joined_pieces(hit.drop_last()) + hit.last().0);
            assert(hit.drop_last() =~= Seq::<(Seq<char>, bool)>::empty());
            if p > from {
                assert(joined_pieces(before) =~= joined_pieces(before.drop_last()) + before.last().0);
                assert(before.drop_last() =~= Seq::<(Seq<char>, bool)>::empty());
            }
            assert(text.subrange(from, text.len() as int) =~= text.subrange(from, p) + text.subrange(
                p,
                end,
            ) + text.subrange(end, text.len() as int));
            assert forall|i: int|
                0 <= i < ps.len() && (#[trigger] ps[i]).1 implies exists|q: int|
                #![trigger occurs_at(lower_text, lower_query, q)]
                occurs_at(lower_text, lower_query, q) && ps[i].0 == text.subrange(q, q + lower_query.len()) by {
                if i >= before.len() + 1 {
                    assert(ps[i] == rest[i - before.len() - 1]);
                } else if i == before.len() {
                    assert(ps[i] == hit[0]);
                    assert(occurs_at(lower_text, lower_query, p));
                } else {
                    assert(ps[i] == before[i]);
                }
            }
        },
    }
}

fn first_match_from(hay: &Vec<char>, needle: &Vec<char>, from: usize) -> (r: Option<usize>)
    requires
        from <= hay@.len(),
        needle@.len() > 0,
    ensures
        r matches Some(p) ==> first_occurrence(hay@, needle@, from as int) == Some(p as int),
        r is None ==> first_occurrence(hay@, needle@, from as int) is None,
{
    if needle.len() > hay.len() - from {
        return None;
    }
    let last = hay.len() - needle.len();
    let mut p: usize = from;
    while p <= last
        invariant
            from <= p <= last + 1,
            last + needle@.len() == hay@.len(),
            hay@.len() <= usize::MAX,
            needle@.len() > 0,
            forall|q: int| from <= q < p ==> !occurs_at(hay@, needle@, q),
        decreases last + 1 - p,
    {
        if crate::search::occurs_here(hay, needle, p) {
            proof {
                lemma_skip_misses(hay@, needle@, from as int, p as int);
            }
            return Some(p);
        }
        if p == last {
            proof {
                lemma_skip_misses(hay@, needle@, from as int, p as int + 1);
            }
            return None;
        }
        p += 1;
    }
    proof {
        lemma_skip_misses(hay@, needle@, from as int, p as int);
    }
    None
}

fn segment(text: &Vec<char>, from: usize, to: usize, matched: bool) -> (r: Segment)
    requires
        from <= to <= text@.len(),
    ensures
        r@ == (text@.subrange(from as int, to as int), matched),
{
    let piece = slice_chars(text, from, to);
    Segment { text: string_of(&piece), matched }
}

/// A line cut into matches of the lowercase query in the lowercase line and
/// the text between them.
pub fn highlighted_segments(text: &str, lower_text: &str, lower_query: &str) -> (r: Vec<Segment>)
    requires
        lower_text@.len() == text@.len(),
        lower_query@.len() > 0,
    ensures
        segments_view(r@) == pieces_from(text@, lower_text@, lower_query@, 0),
{
    let t = chars_of(text);
    let lt = chars_of(lower_text);
    let lq = chars_of(lower_query);
    let ghost all = pieces_from(text@, lower_text@, lower_query@, 0);
    let mut out: Vec<Segment> = Vec::new();
    let mut start: usize = 0;
    assert(segments_view(out@) =~= Seq::<(Seq<char>, bool)>::empty());
    while start < t.len()
        invariant
            t@ == text@,
            lt@ == lower_text@,
            lq@ == lower_query@,
            lt@.len() == t@.len(),
            lq@.len() > 0,
            start <= t@.len(),
            all == pieces_from(text@, lower_text@, lower_query@, 0),
            all == segments_view(out@) + pieces_from(text@, lower_text@, lower_query@, start as int),
        decreases t.len() - start,
    {
        let ghost before = out@;
        let found = first_match_from(&lt, &lq, start);
        match found {
            None => {
                out.push(segment(&t, start, t.len(), false));
                proof {
                    assert(segments_view(out@) =~= segments_view(before).push(
                        (text@.subrange(start as int, text@.len() as int), false),
                    ));
                    assert(pieces_from(text@, lower_text@, lower_query@, t@.len() as int) =~= Seq::<
                        (Seq<char>, bool),
                    >::empty());
                }
                start = t.len();
            },
            Some(p) => {
                proof {
                    lemma_first_occurrence(lt@, lq@, start as int);
                }
                let end = p + lq.len();
                if p > start {
                    out.push(segment(&t, start, p, false));
                }
                out.push(segment(&t, p, end, true));
                proof {
                    let gap: Seq<(Seq<char>, bool)> = if p > start {
                        seq![(text@.subrange(start as int, p as int), false)]
                    } else {
                        seq![]
                    };
                    assert(segments_view(out@) =~= segments_view(before) + gap + seq![
                        (text@.subrange(p as int, end as int), true),
                    ]);
                }
                start = end;
            },
        }
    }
    proof {
        assert(pieces_from(text@, lower_text@, lower_query@, start as int) =~= Seq::<
            (Seq<char>, bool),
        >::empty());
        assert(all =~= segments_view(out@));
    }
    out
}

/// The highlighted pieces of a line for a search query: the whole line
/// unmarked for an empty query; otherwise the pieces of the lowercase line
/// and query (`str::to_lowercase`), where the lowercase line has as many
/// characters as the line and the lowercase query is not empty, and no
/// pieces (`None`) where either fails.
pub fn highlighted_spans(text: &str, query: &str) -> (r: Option<Vec<Segment>>)
    ensures
        query@.len() == 0 ==> (r matches Some(v) && segments_view(v@) == seq![(text@, false)]),
        query@.len() > 0 ==> (r is Some <==> (lowercase_str(text@).len() == text@.len()
            && lowercase_str(query@).len() > 0)),
        query@.len() > 0 ==> (r matches Some(v) ==> segments_view(v@) == pieces_from(
            text@,
            lowercase_str(text@),
            lowercase_str(query@),
            0,
        )),
{
    if query.unicode_len() == 0 {
        let v = vec![Segment { text: owned(text), matched: false }];
        assert(segments_view(v@) =~= seq![(text@, false)]);
        return Some(v);
    }
    let lower_text = crate::search::to_lowercase(text);
    let lower_query = crate::search::to_lowercase(query);
    if lower_text.as_str().unicode_len() != text.unicode_len() || lower_query.as_str().unicode_len() == 0 {
        return None;
    }
    Some(highlighted_segments(text, lower_text.as_str(), lower_query.as_str()))
}

} // verus!
