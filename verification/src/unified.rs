//! The text of a Unified diff row: each side's display lines behind a `-`,
//! `+` or blank marker, and the line-number columns padded to the row's
//! height.
use vstd::prelude::*;

use crate::labels::line_number;
use crate::text::{chars_of, copy_chars, decimal, split_at_char, split_chars, string_of};

verus! {

/// Display lines with a marker: the first behind `prefix`, the others behind
/// a blank, each then a blank and the line.
pub open spec fn prefixed(prefix: Seq<char>, lines: Seq<Seq<char>>) -> Seq<Seq<char>> {
    Seq::new(
        lines.len(),
        |i: int|
            (if i == 0 {
                prefix
            } else {
                seq![' ']
            }) + seq![' '] + lines[i],
    )
}

/// The marked lines of a text, split at line breaks.
pub open spec fn prefixed_text(prefix: Seq<char>, text: Seq<char>) -> Seq<Seq<char>> {
    prefixed(prefix, split_at_char(text, '\n'))
}

/// The views of a list of strings.
pub open spec fn lines_view(v: Seq<String>) -> Seq<Seq<char>> {
    v.map_values(|s: String| s@)
}

/// A text split at line breaks, the first line behind `prefix`.
pub fn prefixed_lines(prefix: &str, text: &str) -> (r: Vec<String>)
    ensures
        lines_view(r@) == prefixed_text(prefix@, text@),
{
    let t = chars_of(text);
    let pieces = split_chars(&t, '\n');
    let p = chars_of(prefix);
    let ghost want = prefixed_text(prefix@, text@);
    let mut out: Vec<String> = Vec::new();
    let mut i: usize = 0;
    while i < pieces.len()
        invariant
            i <= pieces@.len(),
            p@ == prefix@,
            pieces@.len() == split_at_char(text@, '\n').len(),
            forall|k: int| 0 <= k < pieces@.len() ==> #[trigger] pieces@[k]@ == split_at_char(text@, '\n')[k],
            want == prefixed_text(prefix@, text@),
            out@.len() == i,
            forall|k: int| 0 <= k < i ==> #[trigger] out@[k]@ == want[k],
        decreases pieces.len() - i,
    {
        let mut line: Vec<char> = if i == 0 {
            copy_chars(&p)
        } else {
            vec![' ']
        };
        line.push(' ');
        let mut rest = copy_chars(&pieces[i]);
        line.append(&mut rest);
        proof {
            let head: Seq<char> = if i == 0 {
                prefix@
            } else {
                seq![' ']
            };
            assert(line@ =~= head + seq![' '] + split_at_char(text@, '\n')[i as int]);
        }
        out.push(string_of(&line));
        i += 1;
    }
    assert(lines_view(out@) =~= want);
    out
}

/// The text of a modified row in the Unified layout: the old text behind
/// `-` above the new text behind `+`.
pub fn unified_modified_lines(old_text: &str, new_text: &str) -> (r: Vec<String>)
    ensures
        lines_view(r@) == prefixed_text(seq!['-'], old_text@) + prefixed_text(seq!['+'], new_text@),
{
    let minus = string_of(&vec!['-']);
    let plus = string_of(&vec!['+']);
    assert(minus@ =~= seq!['-']);
    assert(plus@ =~= seq!['+']);
    let mut lines = prefixed_lines(minus.as_str(), old_text);
    let mut more = prefixed_lines(plus.as_str(), new_text);
    let ghost a = lines@;
    lines.append(&mut more);
    assert(lines_view(lines@) =~= lines_view(a) + prefixed_text(seq!['+'], new_text@));
    lines
}

/// A line-number column for a row of several lines: `leading` blank lines,
/// the number (nothing when missing), blanks for the rest of the side's
/// `own_height` lines, then `trailing` blank lines.
pub open spec fn number_column_text(number: Option<usize>, leading: nat, own_height: nat, trailing: nat) -> Seq<
    Seq<char>,
> {
    let shown = match number {
        Some(n) => decimal(n as nat),
        None => Seq::<char>::empty(),
    };
    let rest: nat = if own_height >= 1 {
        (own_height - 1) as nat
    } else {
        0
    };
    Seq::new(leading, |i: int| Seq::<char>::empty()) + seq![shown] + Seq::new(
        rest + trailing,
        |i: int| Seq::<char>::empty(),
    )
}

/// The line-number column of a row.
pub fn number_column(number: Option<usize>, leading: usize, own_height: usize, trailing: usize) -> (r: Vec<
    String,
>)
    requires
        leading + own_height + trailing < usize::MAX,
    ensures
        lines_view(r@) == number_column_text(number, leading as nat, own_height as nat, trailing as nat),
{
    let ghost want = number_column_text(number, leading as nat, own_height as nat, trailing as nat);
    let rest: usize = if own_height >= 1 {
        own_height - 1
    } else {
        0
    };
    let total = leading + 1 + rest + trailing;
    let mut out: Vec<String> = Vec::new();
    let mut i: usize = 0;
    while i < total
        invariant
            i <= total,
            total == leading + 1 + rest + trailing,
            want == number_column_text(number, leading as nat, own_height as nat, trailing as nat),
            want.len() == total,
            out@.len() == i,
            forall|k: int| 0 <= k < i ==> #[trigger] out@[k]@ == want[k],
        decreases total - i,
    {
        if i == leading {
            let n = line_number(number);
            out.push(n);
        } else {
            out.push(String::new());
        }
        i += 1;
    }
    assert(lines_view(out@) =~= want);
    out
}

} // verus!
