//! The geometry of Diff rows: which layout a file uses, how wide its text
//! columns are, tab expansion, display widths, and wrapping.
use vstd::prelude::*;

use crate::model::{ChangedFile, DiffLayout, DiffRow, DiffRowKind, FileStatus};
use crate::text::{chars_of, string_of};

verus! {

/// Tab stops are this many columns apart.
pub const TAB_WIDTH: usize = 4;

/// What `UnicodeWidthChar::width` returns for a character.
pub uninterp spec fn char_width_of(c: char) -> Option<usize>;

/// Calls `UnicodeWidthChar::width` of `unicode-width`. Its source gives
/// printable ASCII one column, gives C0 and C1 control characters no width
/// (`None`), and reads the width of every character from `U+00A0` on from a
/// table of one-byte entries; the table itself is left unstated.
#[verifier::external_body]
fn char_width(c: char) -> (r: Option<usize>)
    ensures
        r == char_width_of(c),
        0x20 <= (c as u32) && (c as u32) < 0x7f ==> r == Some(1usize),
        (c as u32) < 0x20 || (0x7f <= (c as u32) && (c as u32) < 0xa0) ==> r is None,
        (c as u32) >= 0xa0 ==> r is Some && r.unwrap() <= 255,
{
    unicode_width::UnicodeWidthChar::width(c)
}

/// What `UnicodeWidthStr::width` returns for a text.
pub uninterp spec fn str_width_of(s: Seq<char>) -> usize;

/// Calls `UnicodeWidthStr::width` of `unicode-width`, which measures a whole
/// text (it is not the sum of the character widths: some sequences combine).
#[verifier::external_body]
fn str_width(s: &str) -> (r: usize)
    ensures
        r == str_width_of(s@),
{
    unicode_width::UnicodeWidthStr::width(s)
}

/// The columns a character advances: its width, or none for a control
/// character.
pub open spec fn columns(c: char) -> nat {
    match char_width_of(c) {
        Some(w) => w as nat,
        None => 0,
    }
}

/// Added, deleted and untracked files have one side only and always use the
/// Unified layout; the others use the preferred layout.
pub open spec fn layout_for(status: FileStatus, preferred: DiffLayout) -> DiffLayout {
    match status {
        FileStatus::Added | FileStatus::Deleted | FileStatus::Untracked => DiffLayout::Unified,
        _ => preferred,
    }
}

/// The layout a file is shown in.
pub fn effective_layout(file: &ChangedFile, preferred: DiffLayout) -> (r: DiffLayout)
    ensures
        r == layout_for(file.status, preferred),
{
    match file.status {
        FileStatus::Added | FileStatus::Deleted | FileStatus::Untracked => DiffLayout::Unified,
        FileStatus::Modified | FileStatus::Renamed | FileStatus::Conflicted => preferred,
    }
}

/// The width of a Diff text column in a panel `area_width` columns wide:
/// the panel less borders, line numbers and markers, halved for Split;
/// at least one column.
pub open spec fn text_columns(area_width: u16, layout: DiffLayout) -> nat {
    let available: nat = if area_width >= 16 {
        (area_width - 16) as nat
    } else {
        0
    };
    let w: nat = match layout {
        DiffLayout::Split => available / 2,
        DiffLayout::Unified => available,
    };
    if w >= 1 {
        w
    } else {
        1
    }
}

/// The width of a Diff text column.
pub fn content_width(area_width: u16, layout: DiffLayout) -> (r: usize)
    ensures
        r == text_columns(area_width, layout),
{
    let available: u16 = if area_width >= 16 {
        area_width - 16
    } else {
        0
    };
    let w: usize = match layout {
        DiffLayout::Split => (available / 2) as usize,
        DiffLayout::Unified => available as usize,
    };
    if w >= 1 {
        w
    } else {
        1
    }
}

/// A text with each tab replaced by spaces up to the next tab stop, columns
/// counted from `column` with the display width of each character.
pub open spec fn expand_from(text: Seq<char>, column: nat) -> Seq<char>
    decreases text.len(),
{
    if text.len() == 0 {
        seq![]
    } else if text[0] == '\t' {
        let spaces = (TAB_WIDTH - column % (TAB_WIDTH as nat)) as nat;
        Seq::new(spaces, |i: int| ' ') + expand_from(text.drop_first(), column + spaces)
    } else {
        seq![text[0]] + expand_from(text.drop_first(), column + columns(text[0]))
    }
}

/// A text with its tabs expanded to four-column stops.
pub open spec fn expanded(text: Seq<char>) -> Seq<char> {
    expand_from(text, 0)
}

proof fn lemma_expand_step(text: Seq<char>, column: nat, k: int)
    requires
        0 <= k < text.len(),
    ensures
        expand_from(text.skip(k), column) == (if text[k] == '\t' {
            Seq::new((TAB_WIDTH - column % (TAB_WIDTH as nat)) as nat, |i: int| ' ')
                + expand_from(text.skip(k + 1), column + (TAB_WIDTH - column % (TAB_WIDTH as nat)) as nat)
        } else {
            seq![text[k]] + expand_from(text.skip(k + 1), column + columns(text[k]))
        }),
{
    assert(text.skip(k).drop_first() =~= text.skip(k + 1));
    assert(text.skip(k)[0] == text[k]);
}

/// Expands the tabs of a text to four-column stops.
pub fn expand_tabs(text: &str) -> (r: String)
    ensures
        r@ == expanded(text@),
{
    let v = chars_of(text);
    let mut out: Vec<char> = Vec::new();
    let ghost mut column: nat = 0;
    let mut phase: usize = 0;
    let mut i: usize = 0;
    assert(v@.skip(0) =~= v@);
    assert(out@ + expand_from(v@.skip(0), column) =~= expanded(text@));
    while i < v.len()
        invariant
            i <= v@.len(),
            v@ == text@,
            phase == column % 4,
            out@ + expand_from(v@.skip(i as int), column) == expanded(text@),
        decreases v.len() - i,
    {
        proof {
            lemma_expand_step(v@, column, i as int);
        }
        let c = v[i];
        if c == '\t' {
            let spaces = TAB_WIDTH - phase;
            let ghost before = out@;
            let mut k: usize = 0;
            while k < spaces
                invariant
                    k <= spaces,
                    out@ == before + Seq::new(k as nat, |j: int| ' '),
                decreases spaces - k,
            {
                out.push(' ');
                assert(out@ =~= before + Seq::new(k as nat + 1, |j: int| ' '));
                k += 1;
            }
            proof {
                assert(out@ + expand_from(v@.skip(i as int + 1), column + spaces as nat) =~= before
                    + (Seq::new(spaces as nat, |j: int| ' ') + expand_from(
                    v@.skip(i as int + 1),
                    column + spaces as nat,
                )));
                column = column + spaces as nat;
            }
            phase = 0;
        } else {
            let ghost before = out@;
            out.push(c);
            let w: usize = match char_width(c) {
                Some(w) => w,
                None => 0,
            };
            proof {
                assert(out@ + expand_from(v@.skip(i as int + 1), column + columns(c)) =~= before + (
                seq![c] + expand_from(v@.skip(i as int + 1), column + columns(c))));
                column = column + w as nat;
            }
            phase = (phase + w % 4) % 4;
        }
        i += 1;
    }
    assert(v@.skip(v@.len() as int) =~= Seq::<char>::empty());
    assert(out@ =~= expanded(text@));
    string_of(&out)
}

/// The wrapping of one line at a width: the number of display lines so far,
/// and the columns used on the last. A character starts a new line when the
/// current line is not empty and the character would pass the width.
pub open spec fn wrap_state(line: Seq<char>, width: nat) -> (nat, nat)
    decreases line.len(),
{
    if line.len() == 0 {
        (1, 0)
    } else {
        let (count, current) = wrap_state(line.drop_last(), width);
        let w = columns(line.last());
        if current > 0 && current + w > width {
            (count + 1, w)
        } else {
            (count, current + w)
        }
    }
}

/// The display lines of a text wrapped at a width: each of its lines wraps
/// on its own, and there is always at least one.
pub open spec fn wrapped_lines(text: Seq<char>, width: nat) -> nat {
    let total = sum_lines(crate::text::split_at_char(text, '\n'), width);
    if total >= 1 {
        total
    } else {
        1
    }
}

/// The display lines of a list of lines.
pub open spec fn sum_lines(lines: Seq<Seq<char>>, width: nat) -> nat
    decreases lines.len(),
{
    if lines.len() == 0 {
        0
    } else {
        sum_lines(lines.drop_last(), width) + wrap_state(lines.last(), width).0
    }
}

/// The display lines of one line, with the columns it needs.
proof fn lemma_wrap_count_bound(line: Seq<char>, width: nat)
    ensures
        1 <= wrap_state(line, width).0 <= line.len() + 1,
    decreases line.len(),
{
    if line.len() > 0 {
        lemma_wrap_count_bound(line.drop_last(), width);
    }
}

/// The lengths of some lines, each counted with one more for its end.
pub open spec fn lengths_with_ends(lines: Seq<Seq<char>>) -> nat
    decreases lines.len(),
{
    if lines.len() == 0 {
        0
    } else {
        lengths_with_ends(lines.drop_last()) + lines.last().len() + 1
    }
}

proof fn lemma_piece_lengths(s: Seq<char>, sep: char)
    ensures
        lengths_with_ends(crate::text::piece_split(s, sep).0) + crate::text::piece_split(s, sep).1.len()
            == s.len(),
    decreases s.len(),
{
    if s.len() > 0 {
        lemma_piece_lengths(s.drop_last(), sep);
        let (done, current) = crate::text::piece_split(s.drop_last(), sep);
        if s.last() == sep {
            assert(done.push(current).drop_last() =~= done);
        }
    }
}

proof fn lemma_split_lengths(s: Seq<char>, sep: char)
    ensures
        lengths_with_ends(crate::text::split_at_char(s, sep)) == s.len() + 1,
{
    lemma_piece_lengths(s, sep);
    let (done, current) = crate::text::piece_split(s, sep);
    assert(done.push(current).drop_last() =~= done);
}

proof fn lemma_sum_lines_bound(lines: Seq<Seq<char>>, width: nat, k: int)
    requires
        0 <= k <= lines.len(),
    ensures
        sum_lines(lines.take(k), width) <= lengths_with_ends(lines.take(k)),
        lengths_with_ends(lines.take(k)) <= lengths_with_ends(lines),
    decreases lines.len(),
{
    if k == lines.len() {
        assert(lines.take(k) =~= lines);
        lemma_sum_lines_le(lines, width);
    } else {
        lemma_sum_lines_bound(lines.drop_last(), width, k);
        assert(lines.drop_last().take(k) =~= lines.take(k));
    }
}

proof fn lemma_sum_lines_le(lines: Seq<Seq<char>>, width: nat)
    ensures
        sum_lines(lines, width) <= lengths_with_ends(lines),
    decreases lines.len(),
{
    if lines.len() > 0 {
        lemma_sum_lines_le(lines.drop_last(), width);
        lemma_wrap_count_bound(lines.last(), width);
    }
}

fn line_wraps(line: &Vec<char>, width: usize) -> (r: usize)
    ensures
        r == wrap_state(line@, width as nat).0,
{
    let mut count: usize = 1;
    let mut current: usize = 0;
    let mut j: usize = 0;
    assert(line@.take(0) =~= Seq::<char>::empty());
    while j < line.len()
        invariant
            j <= line@.len(),
            (count as nat, current as nat) == wrap_state(line@.take(j as int), width as nat),
            j == 0 ==> count == 1 && current == 0,
            j > 0 ==> count <= j,
            current <= (if width > 255 {
                width
            } else {
                255
            }),
        decreases line.len() - j,
    {
        assert(line@.take(j as int + 1).drop_last() =~= line@.take(j as int));
        proof {
            lemma_wrap_count_bound(line@.take(j as int), width as nat);
        }
        let w: usize = match char_width(line[j]) {
            Some(w) => w,
            None => 0,
        };
        if current > 0 && (current > width || w > width - current) {
            count = count + 1;
            current = w;
        } else {
            current = current + w;
        }
        j += 1;
    }
    assert(line@.take(line@.len() as int) =~= line@);
    count
}

/// The display lines of a text wrapped at a width.
pub fn wrapped_line_count(text: &str, width: usize) -> (r: usize)
    requires
        text@.len() < usize::MAX,
    ensures
        r == wrapped_lines(text@, width as nat),
{
    let v = chars_of(text);
    let lines = crate::text::split_chars(&v, '\n');
    let ghost ls = crate::text::split_at_char(text@, '\n');
    proof {
        lemma_split_lengths(text@, '\n');
    }
    let mut total: usize = 0;
    let mut k: usize = 0;
    assert(ls.take(0) =~= Seq::<Seq<char>>::empty());
    while k < lines.len()
        invariant
            k <= lines@.len(),
            lines@.len() == ls.len(),
            forall|q: int| 0 <= q < lines@.len() ==> #[trigger] lines@[q]@ == ls[q],
            lengths_with_ends(ls) == text@.len() + 1,
            text@.len() < usize::MAX,
            total == sum_lines(ls.take(k as int), width as nat),
        decreases lines.len() - k,
    {
        assert(ls.take(k as int + 1).drop_last() =~= ls.take(k as int));
        proof {
            lemma_sum_lines_bound(ls, width as nat, k as int + 1);
        }
        let count = line_wraps(&lines[k], width);
        total = total + count;
        k += 1;
    }
    assert(ls.take(lines@.len() as int) =~= ls);
    if total >= 1 {
        total
    } else {
        1
    }
}

/// A text wrapped at a width: a newline goes before each character that
/// would pass the width on a line that is not empty.
pub open spec fn wrap_text(text: Seq<char>, width: nat) -> (Seq<char>, nat)
    decreases text.len(),
{
    if text.len() == 0 {
        (seq![], 0)
    } else {
        let (out, current) = wrap_text(text.drop_last(), width);
        let c = text.last();
        let w = columns(c);
        if current > 0 && current + w > width {
            (out.push('\n').push(c), w)
        } else {
            (out.push(c), current + w)
        }
    }
}

/// The text shown for one side of a Diff row: tabs expanded, and, when
/// wrapping and the text is wider than the column, wrapped at its width.
pub open spec fn shown_text(text: Option<Seq<char>>, line_wrap: bool, width: nat) -> Seq<char> {
    let e = expanded(
        match text {
            Some(t) => t,
            None => seq![],
        },
    );
    if !line_wrap || str_width_of(e) <= width {
        e
    } else {
        wrap_text(e, width).0
    }
}

/// The text shown for one side of a Diff row.
pub fn display_text(text: Option<&str>, line_wrap: bool, width: usize) -> (r: String)
    ensures
        r@ == shown_text(
            match text {
                Some(t) => Some(t@),
                None => None,
            },
            line_wrap,
            width as nat,
        ),
{
    let source = match text {
        Some(t) => t,
        None => "",
    };
    proof {
        reveal_strlit("");
        assert(""@ =~= Seq::<char>::empty());
    }
    let e = expand_tabs(source);
    if !line_wrap || str_width(e.as_str()) <= width {
        return e;
    }
    let v = chars_of(e.as_str());
    let mut out: Vec<char> = Vec::new();
    let mut current: usize = 0;
    let mut j: usize = 0;
    assert(v@.take(0) =~= Seq::<char>::empty());
    while j < v.len()
        invariant
            j <= v@.len(),
            (out@, current as nat) == wrap_text(v@.take(j as int), width as nat),
            current <= (if width > 255 {
                width
            } else {
                255
            }),
        decreases v.len() - j,
    {
        assert(v@.take(j as int + 1).drop_last() =~= v@.take(j as int));
        let c = v[j];
        let w: usize = match char_width(c) {
            Some(w) => w,
            None => 0,
        };
        if current > 0 && (current > width || w > width - current) {
            out.push('\n');
            current = 0;
        }
        out.push(c);
        current = current + w;
        j += 1;
    }
    assert(v@.take(v@.len() as int) =~= v@);
    string_of(&out)
}


proof fn lemma_expand_length(text: Seq<char>, column: nat)
    ensures
        expand_from(text, column).len() <= 4 * text.len(),
    decreases text.len(),
{
    if text.len() > 0 {
        let spaces = (TAB_WIDTH - column % (TAB_WIDTH as nat)) as nat;
        if text[0] == '\t' {
            lemma_expand_length(text.drop_first(), column + spaces);
        } else {
            lemma_expand_length(text.drop_first(), column + columns(text[0]));
        }
    }
}

/// The texts of a row are short enough to measure in `usize` once expanded.
pub open spec fn row_text_fits(row: crate::model::RowView) -> bool {
    &&& (row.old_text matches Some(t) ==> t.len() < usize::MAX / 8)
    &&& (row.new_text matches Some(t) ==> t.len() < usize::MAX / 8)
}

/// The display lines of one side of a row: one without wrapping; otherwise
/// the wrapped lines of its expanded text, as a `u16` (keeping the low bits).
pub open spec fn side_lines(text: Option<Seq<char>>, line_wrap: bool, width: nat) -> u16 {
    if !line_wrap {
        1
    } else {
        (wrapped_lines(
            expanded(
                match text {
                    Some(t) => t,
                    None => seq![],
                },
            ),
            width,
        ) % 65536) as u16
    }
}

/// The height of a Diff row: in Split layout the taller side; in Unified
/// layout both sides of a modified row stacked (saturating), else the side
/// shown (the new text, or the old one without it). Unified text is two
/// columns narrower, but at least one column wide.
pub open spec fn row_lines(row: crate::model::RowView, layout: DiffLayout, line_wrap: bool, width: usize) -> u16 {
    match layout {
        DiffLayout::Split => {
            let a = side_lines(row.old_text, line_wrap, width as nat);
            let b = side_lines(row.new_text, line_wrap, width as nat);
            if a >= b {
                a
            } else {
                b
            }
        },
        DiffLayout::Unified => {
            let tw: nat = if width >= 3 {
                (width - 2) as nat
            } else {
                1
            };
            match row.kind {
                DiffRowKind::Modified => {
                    let sum = side_lines(row.old_text, line_wrap, tw) + side_lines(
                        row.new_text,
                        line_wrap,
                        tw,
                    );
                    if sum > u16::MAX {
                        u16::MAX
                    } else {
                        sum as u16
                    }
                },
                _ => side_lines(
                    match row.new_text {
                        Some(t) => Some(t),
                        None => row.old_text,
                    },
                    line_wrap,
                    tw,
                ),
            }
        },
    }
}

fn side_line_count(text: &Option<String>, line_wrap: bool, width: usize) -> (r: u16)
    requires
        text matches Some(t) ==> t@.len() < usize::MAX / 8,
    ensures
        r == side_lines(crate::model::opt_text(*text), line_wrap, width as nat),
{
    if !line_wrap {
        return 1;
    }
    let e = match text {
        Some(t) => expand_tabs(t.as_str()),
        None => expand_tabs(""),
    };
    proof {
        reveal_strlit("");
        assert(""@ =~= Seq::<char>::empty());
        match text {
            Some(t) => lemma_expand_length(t@, 0),
            None => {},
        }
    }
    let n = wrapped_line_count(e.as_str(), width);
    (n % 65536) as u16
}

/// The number of terminal lines a Diff row takes.
pub fn row_height(row: &DiffRow, layout: DiffLayout, line_wrap: bool, width: usize) -> (r: u16)
    requires
        row_text_fits(row@),
    ensures
        r == row_lines(row@, layout, line_wrap, width),
{
    match layout {
        DiffLayout::Split => {
            let a = side_line_count(&row.old_text, line_wrap, width);
            let b = side_line_count(&row.new_text, line_wrap, width);
            if a >= b {
                a
            } else {
                b
            }
        },
        DiffLayout::Unified => {
            let tw: usize = if width >= 3 {
                width - 2
            } else {
                1
            };
            match row.kind {
                DiffRowKind::Modified => {
                    let a = side_line_count(&row.old_text, line_wrap, tw);
                    let b = side_line_count(&row.new_text, line_wrap, tw);
                    a.saturating_add(b)
                },
                _ => {
                    let shown = match &row.new_text {
                        Some(t) => Some(t.clone()),
                        None => row.old_text.clone(),
                    };
                    side_line_count(&shown, line_wrap, tw)
                },
            }
        },
    }
}

} // verus!
