//! Diff search: case-insensitive substring matching over the rows of the Diff
//! panel, and moving between matches with wrap-around.
use vstd::prelude::*;

use crate::diff_rows::{hunk_height, row_count, rows_before, rows_fit};
use crate::model::{ChangedFile, DiffRow, HunkView, RowView};
use crate::text::chars_of;

verus! {

/// What `str::to_lowercase` returns for a text: its Unicode lowercase form.
pub uninterp spec fn lowercase_str(s: Seq<char>) -> Seq<char>;

/// Calls `str::to_lowercase`, which depends on the text alone; an all-ASCII
/// text is lowered character by character to its ASCII lowercase, as the
/// Unicode lowercase mapping of ASCII is.
#[verifier::external_body]
pub(crate) fn to_lowercase(s: &str) -> (r: String)
    ensures
        r@ == lowercase_str(s@),
        (forall|i: int| 0 <= i < s@.len() ==> (#[trigger] s@[i] as u32) < 128) ==> r@
            == s@.map_values(|c: char| crate::navigation::ascii_lowercase(c)),
{
    s.to_lowercase()
}

/// Whether `needle` occurs in `hay` at position `i`.
pub open spec fn occurs_at(hay: Seq<char>, needle: Seq<char>, i: int) -> bool {
    0 <= i && i + needle.len() <= hay.len() && hay.subrange(i, i + needle.len()) == needle
}

/// Whether `needle` occurs in `hay`.
pub open spec fn occurs_in(hay: Seq<char>, needle: Seq<char>) -> bool {
    exists|i: int| occurs_at(hay, needle, i)
}

pub(crate) fn occurs_here(hay: &Vec<char>, needle: &Vec<char>, i: usize) -> (r: bool)
    requires
        i + needle@.len() <= hay@.len(),
        hay@.len() <= usize::MAX,
    ensures
        r == occurs_at(hay@, needle@, i as int),
{
    let mut j: usize = 0;
    while j < needle.len()
        invariant
            j <= needle@.len(),
            i + needle@.len() <= hay@.len(),
            hay@.len() <= usize::MAX,
            forall|q: int| 0 <= q < j ==> hay@[i + q] == needle@[q],
        decreases needle.len() - j,
    {
        if hay[i + j] != needle[j] {
            assert(hay@.subrange(i as int, i + needle@.len())[j as int] != needle@[j as int]);
            return false;
        }
        j += 1;
    }
    assert(hay@.subrange(i as int, i + needle@.len()) =~= needle@);
    true
}

fn occurs_chars(hay: &Vec<char>, needle: &Vec<char>) -> (r: bool)
    ensures
        r == occurs_in(hay@, needle@),
{
    let n = hay.len();
    if needle.len() > n {
        proof {
            if occurs_in(hay@, needle@) {
                let i = choose|i: int| occurs_at(hay@, needle@, i);
            }
        }
        return false;
    }
    let last = n - needle.len();
    let mut i: usize = 0;
    while i <= last
        invariant
            n == hay@.len(),
            last == hay@.len() - needle@.len(),
            i <= last + 1,
            forall|p: int| 0 <= p < i ==> !occurs_at(hay@, needle@, p),
        decreases last + 1 - i,
    {
        if occurs_here(hay, needle, i) {
            return true;
        }
        if i == last {
            proof {
                if occurs_in(hay@, needle@) {
                    let p = choose|p: int| occurs_at(hay@, needle@, p);
                    assert(p <= last);
                    assert(p < i || p == i);
                }
            }
            return false;
        }
        i += 1;
    }
    false
}

/// Whether an optional text, empty when absent, holds the query after
/// lowering its case.
pub open spec fn text_matches(text: Option<Seq<char>>, query: Seq<char>) -> bool {
    occurs_in(
        lowercase_str(
            match text {
                Some(t) => t,
                None => seq![],
            },
        ),
        query,
    )
}

/// Whether a diff line matches on either side.
pub open spec fn line_matches(row: RowView, query: Seq<char>) -> bool {
    text_matches(row.old_text, query) || text_matches(row.new_text, query)
}

/// The matching lines of a hunk whose first line is at row `base`.
pub open spec fn matching_lines(rows: Seq<RowView>, base: nat, query: Seq<char>) -> Seq<nat>
    decreases rows.len(),
{
    if rows.len() == 0 {
        seq![]
    } else {
        let earlier = matching_lines(rows.drop_last(), base, query);
        if line_matches(rows.last(), query) {
            earlier.push((base + rows.len() - 1) as nat)
        } else {
            earlier
        }
    }
}

/// The matching rows of a hunk whose header is at row `start`: the header if
/// it matches, then its matching lines unless it is collapsed.
pub open spec fn hunk_matches(h: HunkView, start: nat, query: Seq<char>) -> Seq<nat> {
    let header: Seq<nat> = if occurs_in(lowercase_str(h.header), query) {
        seq![start]
    } else {
        seq![]
    };
    if h.collapsed {
        header
    } else {
        header + matching_lines(h.rows, start + 1, query)
    }
}

/// The matching rows of the hunks, in order.
pub open spec fn matches_in(hunks: Seq<HunkView>, query: Seq<char>) -> Seq<nat>
    decreases hunks.len(),
{
    if hunks.len() == 0 {
        seq![]
    } else {
        let k = hunks.len() - 1;
        matches_in(hunks.drop_last(), query) + hunk_matches(hunks[k], rows_before(hunks, k), query)
    }
}

/// The rows of a file that a Diff search finds; none without a file.
pub open spec fn diff_match_rows(file: Option<ChangedFile>, query: Seq<char>) -> Seq<nat> {
    match file {
        None => seq![],
        Some(f) => matches_in(f@.hunks, lowercase_str(query)),
    }
}

/// The views of a list of row numbers.
pub open spec fn nats(v: Seq<usize>) -> Seq<nat> {
    v.map_values(|x: usize| x as nat)
}

fn optional_matches(text: &Option<String>, query: &Vec<char>) -> (r: bool)
    ensures
        r == text_matches(crate::model::opt_text(*text), query@),
{
    let lowered = match text {
        Some(t) => to_lowercase(t.as_str()),
        None => to_lowercase(""),
    };
    proof {
        reveal_strlit("");
        assert(""@ =~= Seq::<char>::empty());
    }
    let l = chars_of(lowered.as_str());
    occurs_chars(&l, query)
}

fn row_matches(row: &DiffRow, query: &Vec<char>) -> (r: bool)
    ensures
        r == line_matches(row@, query@),
{
    optional_matches(&row.old_text, query) || optional_matches(&row.new_text, query)
}

proof fn lemma_rows_before_step(hunks: Seq<HunkView>, k: int)
    requires
        0 <= k < hunks.len(),
    ensures
        rows_before(hunks, k + 1) == rows_before(hunks, k) + hunk_height(hunks[k]),
{
}

proof fn lemma_rows_before_drop_last(hunks: Seq<HunkView>, j: int)
    requires
        hunks.len() > 0,
        j <= hunks.len() - 1,
    ensures
        rows_before(hunks.drop_last(), j) == rows_before(hunks, j),
    decreases j,
{
    if j > 0 {
        lemma_rows_before_drop_last(hunks, j - 1);
    }
}

/// The rows that a Diff search for `query` finds in a file, in order: hunk
/// headers and, in expanded hunks, lines whose old or new text holds the
/// query, both compared in lowercase.
pub fn diff_matches(file: Option<&ChangedFile>, query: &str) -> (r: Vec<usize>)
    requires
        match file {
            Some(f) => rows_fit(*f),
            None => true,
        },
    ensures
        nats(r@) == diff_match_rows(
            match file {
                Some(f) => Some(*f),
                None => None,
            },
            query@,
        ),
{
    let file = match file {
        Some(f) => f,
        None => {
            let r: Vec<usize> = Vec::new();
            assert(nats(r@) =~= Seq::<nat>::empty());
            return r;
        },
    };
    let lowered = to_lowercase(query);
    let q = chars_of(lowered.as_str());
    let ghost hunks = file@.hunks;
    let mut matches: Vec<usize> = Vec::new();
    let mut start: usize = 0;
    let mut k: usize = 0;
    assert(nats(matches@) =~= Seq::<nat>::empty());
    assert(hunks.take(0) =~= Seq::<HunkView>::empty());
    while k < file.hunks.len()
        invariant
            k <= hunks.len(),
            hunks == file@.hunks,
            rows_fit(*file),
            q@ == lowercase_str(query@),
            start == rows_before(hunks, k as int),
            nats(matches@) == matches_in(hunks.take(k as int), q@),
        decreases file.hunks.len() - k,
    {
        proof {
            crate::diff_rows::lemma_rows_before_monotone(hunks, k as int + 1, hunks.len() as int);
            lemma_rows_before_step(hunks, k as int);
        }
        let hunk = &file.hunks[k];
        let ghost before = nats(matches@);
        let header_text = chars_of(to_lowercase(hunk.header.as_str()).as_str());
        if occurs_chars(&header_text, &q) {
            matches.push(start);
        }
        let ghost after_header = nats(matches@);
        assert(after_header =~= before + (if occurs_in(lowercase_str(hunk.header@), q@) {
            seq![start as nat]
        } else {
            seq![]
        }));
        if !hunk.collapsed {
            let ghost rows = hunks[k as int].rows;
            let mut i: usize = 0;
            assert(rows.take(0) =~= Seq::<RowView>::empty());
            assert(after_header + matching_lines(rows.take(0), start as nat + 1, q@) =~= after_header);
            while i < hunk.rows.len()
                invariant
                    i <= rows.len(),
                    rows == crate::model::rows_view(hunk.rows@),
                    start + 1 + rows.len() <= usize::MAX,
                    nats(matches@) == after_header + matching_lines(
                        rows.take(i as int),
                        start as nat + 1,
                        q@,
                    ),
                decreases hunk.rows.len() - i,
            {
                assert(rows.take(i as int + 1).drop_last() =~= rows.take(i as int));
                let ghost prior = nats(matches@);
                if row_matches(&hunk.rows[i], &q) {
                    matches.push(start + 1 + i);
                    assert(nats(matches@) =~= prior.push((start + 1 + i) as nat));
                }
                i += 1;
            }
            assert(rows.take(rows.len() as int) =~= rows);
            start = start + 1 + hunk.rows.len();
        } else {
            start = start + 1;
        }
        proof {
            let taken = hunks.take(k as int + 1);
            assert(taken.drop_last() =~= hunks.take(k as int));
            assert(taken[k as int] == hunks[k as int]);
            lemma_take_rows_before(hunks, k as int + 1, k as int);
            assert(nats(matches@) =~= matches_in(taken, q@));
        }
        k += 1;
    }
    assert(hunks.take(hunks.len() as int) =~= hunks);
    matches
}

proof fn lemma_take_rows_before(hunks: Seq<HunkView>, n: int, j: int)
    requires
        0 <= j <= n <= hunks.len(),
    ensures
        rows_before(hunks.take(n), j) == rows_before(hunks, j),
    decreases j,
{
    if j > 0 {
        lemma_take_rows_before(hunks, n, j - 1);
    }
}

/// Every row a search finds is a row of the file, and they come in
/// increasing order.
pub proof fn lemma_matches_are_ordered_rows(hunks: Seq<HunkView>, query: Seq<char>)
    ensures
        forall|i: int|
            0 <= i < matches_in(hunks, query).len() ==> #[trigger] matches_in(hunks, query)[i]
                < row_count(hunks),
        forall|i: int, j: int|
            0 <= i < j < matches_in(hunks, query).len() ==> matches_in(hunks, query)[i]
                < matches_in(hunks, query)[j],
    decreases hunks.len(),
{
    if hunks.len() > 0 {
        let k = hunks.len() - 1;
        let rest = hunks.drop_last();
        lemma_matches_are_ordered_rows(rest, query);
        assert forall|j: int| 0 <= j <= k implies rows_before(rest, j) == rows_before(hunks, j) by {
            lemma_rows_before_drop_last(hunks, j);
        }
        let start = rows_before(hunks, k);
        let earlier = matches_in(rest, query);
        let tail = hunk_matches(hunks[k], start, query);
        lemma_hunk_matches_bounds(hunks[k], start, query);
        assert(row_count(rest) == start);
        let all = matches_in(hunks, query);
        assert(all == earlier + tail);
        assert forall|i: int| 0 <= i < all.len() implies #[trigger] all[i] < row_count(hunks) by {
            if i < earlier.len() {
                assert(all[i] == earlier[i]);
            } else {
                assert(all[i] == tail[i - earlier.len()]);
            }
        }
        assert forall|i: int, j: int| 0 <= i < j < all.len() implies all[i] < all[j] by {
            if j < earlier.len() {
                assert(all[i] == earlier[i] && all[j] == earlier[j]);
            } else if i < earlier.len() {
                assert(all[i] == earlier[i]);
                assert(all[j] == tail[j - earlier.len()]);
            } else {
                assert(all[i] == tail[i - earlier.len()]);
                assert(all[j] == tail[j - earlier.len()]);
            }
        }
    }
}

proof fn lemma_matching_lines_bounds(rows: Seq<RowView>, base: nat, query: Seq<char>)
    ensures
        forall|i: int|
            0 <= i < matching_lines(rows, base, query).len() ==> base <= #[trigger] matching_lines(
                rows,
                base,
                query,
            )[i] < base + rows.len(),
        forall|i: int, j: int|
            0 <= i < j < matching_lines(rows, base, query).len() ==> matching_lines(
                rows,
                base,
                query,
            )[i] < matching_lines(rows, base, query)[j],
    decreases rows.len(),
{
    if rows.len() > 0 {
        let rest = rows.drop_last();
        lemma_matching_lines_bounds(rest, base, query);
        let earlier = matching_lines(rest, base, query);
        let all = matching_lines(rows, base, query);
        if line_matches(rows.last(), query) {
            assert(all == earlier.push((base + rows.len() - 1) as nat));
            assert forall|i: int| 0 <= i < all.len() implies base <= #[trigger] all[i] < base
                + rows.len() by {
                if i < earlier.len() {
                    assert(all[i] == earlier[i]);
                }
            }
            assert forall|i: int, j: int| 0 <= i < j < all.len() implies all[i] < all[j] by {
                assert(all[i] == earlier[i]);
                if j < earlier.len() {
                    assert(all[j] == earlier[j]);
                }
            }
        }
    }
}

proof fn lemma_hunk_matches_bounds(h: HunkView, start: nat, query: Seq<char>)
    ensures
        forall|i: int|
            0 <= i < hunk_matches(h, start, query).len() ==> start <= #[trigger] hunk_matches(
                h,
                start,
                query,
            )[i] < start + hunk_height(h),
        forall|i: int, j: int|
            0 <= i < j < hunk_matches(h, start, query).len() ==> hunk_matches(h, start, query)[i]
                < hunk_matches(h, start, query)[j],
{
    lemma_matching_lines_bounds(h.rows, start + 1, query);
    let header: Seq<nat> = if occurs_in(lowercase_str(h.header), query) {
        seq![start]
    } else {
        seq![]
    };
    let lines = matching_lines(h.rows, start + 1, query);
    let all = hunk_matches(h, start, query);
    if !h.collapsed {
        assert(all == header + lines);
        assert forall|i: int| 0 <= i < all.len() implies start <= #[trigger] all[i] < start
            + hunk_height(h) by {
            if i >= header.len() {
                assert(all[i] == lines[i - header.len()]);
            }
        }
        assert forall|i: int, j: int| 0 <= i < j < all.len() implies all[i] < all[j] by {
            if i >= header.len() {
                assert(all[i] == lines[i - header.len()]);
            }
            if j >= header.len() {
                assert(all[j] == lines[j - header.len()]);
            }
        }
    }
}

/// The first match from position `from` on that lies after `current`.
pub open spec fn first_after(matches: Seq<usize>, current: usize, from: int) -> Option<usize>
    decreases matches.len() - from,
{
    if from < 0 || from >= matches.len() {
        None
    } else if matches[from] > current {
        Some(matches[from])
    } else {
        first_after(matches, current, from + 1)
    }
}

/// The last match before position `upto` that lies before `current`.
pub open spec fn last_before(matches: Seq<usize>, current: usize, upto: int) -> Option<usize>
    decreases upto,
{
    if upto <= 0 || upto > matches.len() {
        None
    } else if matches[upto - 1] < current {
        Some(matches[upto - 1])
    } else {
        last_before(matches, current, upto - 1)
    }
}

/// The match to move to from `current`: forward, the first match after it,
/// wrapping to the first; backward, the last match before it, wrapping to the
/// last; without a direction, the first match.
pub open spec fn next_match(matches: Seq<usize>, current: usize, direction: isize) -> usize {
    if direction > 0 {
        match first_after(matches, current, 0) {
            Some(m) => m,
            None => matches[0],
        }
    } else if direction < 0 {
        match last_before(matches, current, matches.len() as int) {
            Some(m) => m,
            None => matches.last(),
        }
    } else {
        matches[0]
    }
}

/// The row to select when moving between Diff search matches from the
/// selected row (the first match when none is selected).
pub fn next_search_match(matches: &Vec<usize>, selected: Option<usize>, direction: isize) -> (r:
    usize)
    requires
        matches@.len() > 0,
    ensures
        r == next_match(
            matches@,
            match selected {
                Some(s) => s,
                None => matches@[0],
            },
            direction,
        ),
{
    let current = match selected {
        Some(s) => s,
        None => matches[0],
    };
    if direction > 0 {
        let mut i: usize = 0;
        while i < matches.len()
            invariant
                i <= matches@.len(),
                direction > 0,
                current == (match selected {
                    Some(s) => s,
                    None => matches@[0],
                }),
                first_after(matches@, current, 0) == first_after(matches@, current, i as int),
            decreases matches.len() - i,
        {
            if matches[i] > current {
                return matches[i];
            }
            i += 1;
        }
        matches[0]
    } else if direction < 0 {
        let mut i: usize = matches.len();
        while i > 0
            invariant
                i <= matches@.len(),
                direction < 0,
                current == (match selected {
                    Some(s) => s,
                    None => matches@[0],
                }),
                last_before(matches@, current, matches@.len() as int) == last_before(
                    matches@,
                    current,
                    i as int,
                ),
            decreases i,
        {
            if matches[i - 1] < current {
                return matches[i - 1];
            }
            i -= 1;
        }
        matches[matches.len() - 1]
    } else {
        matches[0]
    }
}

proof fn lemma_first_after_is_a_match(matches: Seq<usize>, current: usize, from: int)
    ensures
        first_after(matches, current, from) matches Some(m) ==> matches.contains(m),
    decreases matches.len() - from,
{
    if 0 <= from < matches.len() && matches[from] <= current {
        lemma_first_after_is_a_match(matches, current, from + 1);
    }
}

proof fn lemma_last_before_is_a_match(matches: Seq<usize>, current: usize, upto: int)
    ensures
        last_before(matches, current, upto) matches Some(m) ==> matches.contains(m),
    decreases upto,
{
    if 0 < upto <= matches.len() && matches[upto - 1] >= current {
        lemma_last_before_is_a_match(matches, current, upto - 1);
    }
}

/// Moving between matches always lands on a match.
pub proof fn lemma_next_match_is_a_match(matches: Seq<usize>, current: usize, direction: isize)
    requires
        matches.len() > 0,
    ensures
        matches.contains(next_match(matches, current, direction)),
{
    lemma_first_after_is_a_match(matches, current, 0);
    lemma_last_before_is_a_match(matches, current, matches.len() as int);
    assert(matches[0] == matches[0]);
    assert(matches[matches.len() - 1] == matches.last());
}

/// The position of the first match equal to `selected` from position `from`
/// on.
pub open spec fn position_from(matches: Seq<usize>, selected: usize, from: int) -> Option<nat>
    decreases matches.len() - from,
{
    if from < 0 || from >= matches.len() {
        None
    } else if matches[from] == selected {
        Some(from as nat)
    } else {
        position_from(matches, selected, from + 1)
    }
}

/// The place of the selected row among the matches, counted from 1 (0 when
/// it is not a match), and the number of matches.
pub open spec fn match_place(matches: Seq<usize>, selected: Option<usize>) -> (nat, nat) {
    match selected {
        Some(s) => match position_from(matches, s, 0) {
            Some(i) => (i + 1, matches.len()),
            None => (0, matches.len()),
        },
        None => (0, matches.len()),
    }
}

/// The current and total match count shown in the Diff title.
pub fn search_match_position(matches: &Vec<usize>, selected: Option<usize>) -> (r: (usize, usize))
    ensures
        (r.0 as nat, r.1 as nat) == match_place(matches@, selected),
{
    let count = matches.len();
    match selected {
        None => (0, count),
        Some(s) => {
            let mut i: usize = 0;
            while i < matches.len()
                invariant
                    i <= matches@.len(),
                    count == matches@.len(),
                    selected == Some(s),
                    position_from(matches@, s, 0) == position_from(matches@, s, i as int),
                decreases matches.len() - i,
            {
                if matches[i] == s {
                    return (i + 1, count);
                }
                i += 1;
            }
            (0, count)
        },
    }
}

} // verus!
