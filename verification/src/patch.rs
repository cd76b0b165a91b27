//! Reading unified diffs: file headers, hunk headers, quoted paths, and the
//! pairing of deleted and added lines into side-by-side rows.
use vstd::prelude::*;

use crate::model::{
    files_view, hunks_view, opt_text, rows_view, ChangedFile, DiffHunk, DiffRow, DiffRowKind, FileStatus,
    FileView, HunkId, HunkKind, HunkView, RowView,
};
use crate::text::{
    before_char, before_char_chars, chars_of, digit_value, eq_str, fields_of, fields_of_chars,
    has_prefix, parse_usize, parse_usize_spec, rfind, rfind_str, skip_chars, slice_chars,
    strip_str, string_of, trim, lemma_lines_count, trim_chars, eq_str as chars_eq_str, lines_of, lines_of_str,
    starts_with_str,
};

verus! {

/// `a/x` and `b/x` lose their side prefix.
pub open spec fn strip_side(s: Seq<char>) -> Seq<char> {
    if has_prefix(s, "a/"@) {
        s.skip(2)
    } else if has_prefix(s, "b/"@) {
        s.skip(2)
    } else {
        s
    }
}

/// `c` is one of `0`..`7`.
pub open spec fn is_octal(c: char) -> bool {
    '0' <= c && c <= '7'
}

/// How many of the first two characters of `s` are octal digits in a row.
pub open spec fn octal_run(s: Seq<char>) -> nat {
    if s.len() > 0 && is_octal(s[0]) {
        if s.len() > 1 && is_octal(s[1]) {
            2
        } else {
            1
        }
    } else {
        0
    }
}

/// The value of a run of octal digits.
pub open spec fn octal_value(s: Seq<char>) -> nat
    decreases s.len(),
{
    if s.len() == 0 {
        0
    } else {
        octal_value(s.drop_last()) * 8 + digit_value(s.last())
    }
}

/// The character of a byte value.
pub open spec fn byte_char(v: nat) -> char {
    (v as u8) as char
}

/// Git's C-style escapes decoded: `\n`, `\t`, `\r`, `\\`, `\"`, and octal bytes
/// of one to three digits (dropped when above 255); any other escaped character
/// stands for itself, and a trailing backslash stays.
pub open spec fn decode_escapes(s: Seq<char>) -> Seq<char>
    decreases s.len(),
{
    if s.len() == 0 {
        seq![]
    } else if s[0] != '\\' {
        seq![s[0]] + decode_escapes(s.drop_first())
    } else if s.len() == 1 {
        seq!['\\']
    } else {
        let e = s[1];
        let rest = s.skip(2);
        if e == 'n' {
            seq!['\n'] + decode_escapes(rest)
        } else if e == 't' {
            seq!['\t'] + decode_escapes(rest)
        } else if e == 'r' {
            seq!['\r'] + decode_escapes(rest)
        } else if is_octal(e) {
            let k = octal_run(rest);
            let v = octal_value(seq![e] + rest.take(k as int));
            if v <= 255 {
                seq![byte_char(v)] + decode_escapes(rest.skip(k as int))
            } else {
                decode_escapes(rest.skip(k as int))
            }
        } else {
            seq![e] + decode_escapes(rest)
        }
    }
}

/// A path as Git prints it: trimmed, unquoted and unescaped when it is quoted,
/// and without its `a/` or `b/` side prefix.
pub open spec fn unquote_path(path: Seq<char>) -> Seq<char> {
    let p = trim(path);
    if p.len() >= 2 && p[0] == '"' && p.last() == '"' {
        strip_side(decode_escapes(p.subrange(1, p.len() - 1)))
    } else {
        strip_side(p)
    }
}

/// The path of a `---`/`+++` line: unquoted, then without one more side prefix.
pub open spec fn patch_path(path: Seq<char>) -> Seq<char> {
    strip_side(unquote_path(path))
}

/// The new-side path named by a `diff --git` line, or empty when the line has
/// no ` b/` part.
pub open spec fn diff_header_path(line: Seq<char>) -> Seq<char> {
    let rest = if has_prefix(line, "diff --git "@) {
        line.skip(11)
    } else {
        seq![]
    };
    match rfind(rest, " b/"@) {
        Some(k) => unquote_path(rest.skip(k + 1 as int)),
        None => seq![],
    }
}

/// The start line of a `-a,b` or `+a,b` range.
pub open spec fn range_start(range: Seq<char>, sign: char) -> Option<usize> {
    if range.len() > 0 && range[0] == sign {
        parse_usize_spec(before_char(range.drop_first(), ','))
    } else {
        None
    }
}

/// The old and new start lines of a `@@ -a,b +c,d @@` header.
pub open spec fn hunk_header_starts(header: Seq<char>) -> Option<(usize, usize)> {
    let f = fields_of(header);
    if f.len() >= 3 && f[0] == "@@"@ {
        match (range_start(f[1], '-'), range_start(f[2], '+')) {
            (Some(a), Some(b)) => Some((a, b)),
            _ => None,
        }
    } else {
        None
    }
}

fn strip_side_chars(v: Vec<char>) -> (r: Vec<char>)
    ensures
        r@ == strip_side(v@),
{
    if let Some(rest) = strip_str(&v, "a/") {
        proof {
            reveal_strlit("a/");
        }
        rest
    } else if let Some(rest) = strip_str(&v, "b/") {
        proof {
            reveal_strlit("b/");
        }
        rest
    } else {
        v
    }
}

/// Decodes the escapes of a quoted path.
fn decode_escapes_chars(s: &Vec<char>) -> (r: Vec<char>)
    ensures
        r@ == decode_escapes(s@),
{
    let mut out: Vec<char> = Vec::new();
    let mut i: usize = 0;
    assert(s@.skip(0) =~= s@);
    while i < s.len()
        invariant
            i <= s.len(),
            out@ + decode_escapes(s@.skip(i as int)) == decode_escapes(s@),
        decreases s.len() - i,
    {
        let ghost t = s@.skip(i as int);
        let c = s[i];
        assert(t[0] == c);
        if c != '\\' {
            out.push(c);
            i += 1;
            assert(t.drop_first() =~= s@.skip(i as int));
            assert(out@ + decode_escapes(s@.skip(i as int)) =~= decode_escapes(s@));
        } else if i + 1 == s.len() {
            out.push('\\');
            i += 1;
            assert(t.len() == 1);
            assert(s@.skip(i as int).len() == 0);
            assert(out@ + decode_escapes(s@.skip(i as int)) =~= decode_escapes(s@));
        } else {
            let e = s[i + 1];
            assert(t[1] == e);
            let ghost rest = t.skip(2);
            assert(rest =~= s@.skip(i + 2));
            if e == 'n' || e == 't' || e == 'r' {
                let d = if e == 'n' {
                    '\n'
                } else if e == 't' {
                    '\t'
                } else {
                    '\r'
                };
                out.push(d);
                i += 2;
                assert(out@ + decode_escapes(s@.skip(i as int)) =~= decode_escapes(s@));
            } else if '0' <= e && e <= '7' {
                let mut value: u32 = (e as u32) - ('0' as u32);
                let ghost mut digits: Seq<char> = seq![e];
                assert(digits.drop_last() =~= Seq::<char>::empty());
                assert(octal_value(Seq::<char>::empty()) == 0);
                assert(digit_value(e) == value);
                assert(digits.last() == e);
                assert(value == octal_value(digits));
                let mut k: usize = 0;
                let mut j: usize = i + 2;
                if j < s.len() && '0' <= s[j] && s[j] <= '7' {
                    let c1 = s[j];
                    value = value * 8 + ((c1 as u32) - ('0' as u32));
                    proof {
                        let next = digits.push(c1);
                        assert(next.drop_last() =~= digits);
                        assert(octal_value(next) == octal_value(digits) * 8 + digit_value(c1));
                        digits = next;
                    }
                    k = 1;
                    j += 1;
                    if j < s.len() && '0' <= s[j] && s[j] <= '7' {
                        let c2 = s[j];
                        value = value * 8 + ((c2 as u32) - ('0' as u32));
                        proof {
                            let next = digits.push(c2);
                            assert(next.drop_last() =~= digits);
                            assert(octal_value(next) == octal_value(digits) * 8 + digit_value(c2));
                            digits = next;
                        }
                        k = 2;
                        j += 1;
                    }
                }
                proof {
                    assert(k == octal_run(rest));
                    assert(digits =~= seq![e] + rest.take(k as int));
                    assert(rest.skip(k as int) =~= s@.skip(j as int));
                }
                proof {
                    assert(value == octal_value(digits));
                    assert(decode_escapes(t) == (if value <= 255 {
                        seq![byte_char(value as nat)]
                    } else {
                        Seq::<char>::empty()
                    }) + decode_escapes(rest.skip(k as int)));
                }
                if value <= 255 {
                    let b: char = (value as u8) as char;
                    out.push(b);
                }
                i = j;
                assert(out@ + decode_escapes(s@.skip(i as int)) =~= decode_escapes(s@));
            } else {
                out.push(e);
                i += 2;
                assert(out@ + decode_escapes(s@.skip(i as int)) =~= decode_escapes(s@));
            }
        }
    }
    assert(s@.skip(s.len() as int) =~= Seq::<char>::empty());
    assert(out@ + Seq::<char>::empty() =~= out@);
    out
}

/// A path as Git prints it, unquoted and without its side prefix.
pub fn unquote_git_path(path: &Vec<char>) -> (r: Vec<char>)
    ensures
        r@ == unquote_path(path@),
{
    let p = trim_chars(path);
    let n = p.len();
    if n >= 2 && p[0] == '"' && p[n - 1] == '"' {
        let inner = slice_chars(&p, 1, n - 1);
        let decoded = decode_escapes_chars(&inner);
        strip_side_chars(decoded)
    } else {
        strip_side_chars(p)
    }
}

/// The path of a `---`/`+++` line.
pub fn parse_patch_path(path: &Vec<char>) -> (r: Vec<char>)
    ensures
        r@ == patch_path(path@),
{
    let p = unquote_git_path(path);
    strip_side_chars(p)
}

/// The path named by a `diff --git` line.
pub fn path_from_diff_header(line: &Vec<char>) -> (r: Vec<char>)
    ensures
        r@ == diff_header_path(line@),
{
    let rest = match strip_str(line, "diff --git ") {
        Some(rest) => {
            proof {
                reveal_strlit("diff --git ");
            }
            rest
        },
        None => Vec::new(),
    };
    assert(rest@ == (if has_prefix(line@, "diff --git "@) {
        line@.skip(11)
    } else {
        seq![]
    })) by {
        reveal_strlit("diff --git ");
    }
    let rest_len = rest.len();
    let found = rfind_str(&rest, " b/");
    match found {
        Some(k) => {
            proof {
                reveal_strlit(" b/");
                assert(" b/"@.len() == 3);
                assert(k + 3 <= rest@.len());
            }
            let tail = skip_chars(&rest, k + 1);
            unquote_git_path(&tail)
        },
        None => Vec::new(),
    }
}

/// The start line of a range field.
fn parse_range_start(range: &Vec<char>, sign: char) -> (r: Option<usize>)
    ensures
        r == range_start(range@, sign),
{
    if range.len() > 0 && range[0] == sign {
        let rest = skip_chars(range, 1);
        assert(rest@ == range@.drop_first());
        let head = before_char_chars(&rest, ',');
        parse_usize(&head)
    } else {
        None
    }
}

/// The old and new start lines of a hunk header.
pub fn parse_hunk_header_chars(header: &Vec<char>) -> (r: Option<(usize, usize)>)
    ensures
        r == hunk_header_starts(header@),
{
    let f = fields_of_chars(header);
    if f.len() >= 3 && eq_str(&f[0], "@@") {
        let a = parse_range_start(&f[1], '-');
        let b = parse_range_start(&f[2], '+');
        match (a, b) {
            (Some(a), Some(b)) => Some((a, b)),
            _ => None,
        }
    } else {
        None
    }
}

/// Reads a hunk header given as text.
pub fn parse_hunk_header(header: &str) -> (r: Option<(usize, usize)>)
    ensures
        r == hunk_header_starts(header@),
{
    let v = chars_of(header);
    parse_hunk_header_chars(&v)
}

/// A hunk being read: its header, the line numbers of its next old and new
/// lines, its finished rows, and the deleted and added lines not yet paired.
pub struct HunkAcc {
    pub header: Seq<char>,
    pub kind: HunkKind,
    pub old_line: usize,
    pub new_line: usize,
    pub rows: Seq<RowView>,
    pub deleted: Seq<(usize, Seq<char>)>,
    pub added: Seq<(usize, Seq<char>)>,
}

/// The state of a diff being read: the files finished, the file and the hunk
/// being read.
pub struct ParseAcc {
    pub files: Seq<FileView>,
    pub file: Option<FileView>,
    pub hunk: Option<HunkAcc>,
}

/// The `i`-th row made by pairing deleted with added lines: both sides make a
/// modified row, one side a deleted or added row.
pub open spec fn paired_row(
    deleted: Seq<(usize, Seq<char>)>,
    added: Seq<(usize, Seq<char>)>,
    i: int,
) -> RowView {
    let has_old = i < deleted.len();
    let has_new = i < added.len();
    RowView {
        old_number: if has_old {
            Some(deleted[i].0)
        } else {
            None
        },
        new_number: if has_new {
            Some(added[i].0)
        } else {
            None
        },
        old_text: if has_old {
            Some(deleted[i].1)
        } else {
            None
        },
        new_text: if has_new {
            Some(added[i].1)
        } else {
            None
        },
        kind: if has_old && has_new {
            DiffRowKind::Modified
        } else if has_old {
            DiffRowKind::Deleted
        } else {
            DiffRowKind::Added
        },
    }
}

/// The larger of two lengths.
pub open spec fn max_len(a: nat, b: nat) -> nat {
    if a >= b {
        a
    } else {
        b
    }
}

/// Deleted and added lines paired position by position.
pub open spec fn paired_rows(
    deleted: Seq<(usize, Seq<char>)>,
    added: Seq<(usize, Seq<char>)>,
) -> Seq<RowView> {
    Seq::new(max_len(deleted.len(), added.len()), |i: int| paired_row(deleted, added, i))
}

/// The hunk with its unpaired lines turned into rows.
pub open spec fn flush_pending(h: HunkAcc) -> HunkAcc {
    HunkAcc { rows: h.rows + paired_rows(h.deleted, h.added), deleted: seq![], added: seq![], ..h }
}

/// The finished hunk; its id is settled once the whole file is read.
pub open spec fn finished_hunk(h: HunkAcc) -> HunkView {
    HunkView {
        id: "parsed"@,
        header: h.header,
        kind: h.kind,
        rows: h.rows + paired_rows(h.deleted, h.added),
        collapsed: false,
    }
}

/// A row of this kind counts as an added line.
pub open spec fn counts_addition(k: DiffRowKind) -> bool {
    k == DiffRowKind::Added || k == DiffRowKind::Modified
}

/// A row of this kind counts as a deleted line.
pub open spec fn counts_deletion(k: DiffRowKind) -> bool {
    k == DiffRowKind::Deleted || k == DiffRowKind::Modified
}

/// The number of rows that count as added lines.
pub open spec fn additions_in(rows: Seq<RowView>) -> nat
    decreases rows.len(),
{
    if rows.len() == 0 {
        0
    } else {
        additions_in(rows.drop_last()) + if counts_addition(rows.last().kind) {
            1nat
        } else {
            0nat
        }
    }
}

/// The number of rows that count as deleted lines.
pub open spec fn deletions_in(rows: Seq<RowView>) -> nat
    decreases rows.len(),
{
    if rows.len() == 0 {
        0
    } else {
        deletions_in(rows.drop_last()) + if counts_deletion(rows.last().kind) {
            1nat
        } else {
            0nat
        }
    }
}

/// There are never more counted rows than rows.
pub proof fn lemma_counts_bounded(rows: Seq<RowView>)
    ensures
        additions_in(rows) <= rows.len(),
        deletions_in(rows) <= rows.len(),
    decreases rows.len(),
{
    if rows.len() > 0 {
        lemma_counts_bounded(rows.drop_last());
    }
}

/// The file with a finished hunk appended and its lines counted.
pub open spec fn with_hunk(f: FileView, h: HunkAcc) -> FileView {
    let fh = finished_hunk(h);
    FileView {
        additions: f.additions + additions_in(fh.rows),
        deletions: f.deletions + deletions_in(fh.rows),
        hunks: f.hunks.push(fh),
        ..f
    }
}

/// Finishes the hunk being read, if any, into the file being read.
pub open spec fn flush_hunk_acc(st: ParseAcc) -> ParseAcc {
    match (st.file, st.hunk) {
        (Some(f), Some(h)) => ParseAcc { file: Some(with_hunk(f, h)), hunk: None, ..st },
        _ => ParseAcc { hunk: None, ..st },
    }
}

/// Finishes the file being read; a file whose path stayed empty is dropped.
pub open spec fn flush_file_acc(st: ParseAcc) -> ParseAcc {
    ParseAcc {
        files: match st.file {
            Some(f) => if f.path.len() > 0 {
                st.files.push(f)
            } else {
                st.files
            },
            None => st.files,
        },
        file: None,
        ..st
    }
}

/// A file just named by a `diff --git` line.
pub open spec fn new_file(path: Seq<char>) -> FileView {
    FileView {
        path: path,
        old_path: None,
        status: FileStatus::Modified,
        additions: 0,
        deletions: 0,
        hunks: seq![],
        binary: false,
    }
}

/// A hunk just opened by its header.
pub open spec fn new_hunk(header: Seq<char>, kind: HunkKind, old_line: usize, new_line: usize) -> HunkAcc {
    HunkAcc { header, kind, old_line, new_line, rows: seq![], deleted: seq![], added: seq![] }
}

/// A context line: pending lines are paired first, then a row with both sides.
pub open spec fn context_line(h: HunkAcc, text: Seq<char>) -> HunkAcc {
    let g = flush_pending(h);
    HunkAcc {
        rows: g.rows.push(
            RowView {
                old_number: Some(g.old_line),
                new_number: Some(g.new_line),
                old_text: Some(text),
                new_text: Some(text),
                kind: DiffRowKind::Context,
            },
        ),
        old_line: (g.old_line + 1) as usize,
        new_line: (g.new_line + 1) as usize,
        ..g
    }
}

/// A deleted line waits to be paired.
pub open spec fn deleted_line(h: HunkAcc, text: Seq<char>) -> HunkAcc {
    HunkAcc { deleted: h.deleted.push((h.old_line, text)), old_line: (h.old_line + 1) as usize, ..h }
}

/// An added line waits to be paired.
pub open spec fn added_line(h: HunkAcc, text: Seq<char>) -> HunkAcc {
    HunkAcc { added: h.added.push((h.new_line, text)), new_line: (h.new_line + 1) as usize, ..h }
}

/// What a line of a unified diff is, judged by its first characters in the
/// order the reader tries them.
#[derive(Clone, Copy, PartialEq, Eq, Structural)]
pub enum LineKind {
    DiffGit,
    NewFile,
    DeletedFile,
    RenameFrom,
    RenameTo,
    Binary,
    OldPath,
    NewPath,
    HunkHeader,
    NoNewline,
    Context,
    Deleted,
    Added,
    Other,
}

/// The kind of a diff line.
pub open spec fn line_kind(line: Seq<char>) -> LineKind {
    if has_prefix(line, "diff --git "@) {
        LineKind::DiffGit
    } else if has_prefix(line, "new file mode "@) {
        LineKind::NewFile
    } else if has_prefix(line, "deleted file mode "@) {
        LineKind::DeletedFile
    } else if has_prefix(line, "rename from "@) {
        LineKind::RenameFrom
    } else if has_prefix(line, "rename to "@) {
        LineKind::RenameTo
    } else if has_prefix(line, "Binary files "@) || line == "GIT binary patch"@ {
        LineKind::Binary
    } else if has_prefix(line, "--- "@) {
        LineKind::OldPath
    } else if has_prefix(line, "+++ "@) {
        LineKind::NewPath
    } else if has_prefix(line, "@@ "@) {
        LineKind::HunkHeader
    } else if line == "\\ No newline at end of file"@ {
        LineKind::NoNewline
    } else if has_prefix(line, " "@) {
        LineKind::Context
    } else if has_prefix(line, "-"@) {
        LineKind::Deleted
    } else if has_prefix(line, "+"@) {
        LineKind::Added
    } else {
        LineKind::Other
    }
}

/// How one line of a unified diff changes the state of the reader.
pub open spec fn diff_step(st: ParseAcc, line: Seq<char>, kind: HunkKind) -> ParseAcc {
    let k = line_kind(line);
    if k == LineKind::DiffGit {
        let g = flush_file_acc(flush_hunk_acc(st));
        ParseAcc { file: Some(new_file(diff_header_path(line))), ..g }
    } else {
        match st.file {
            None => st,
            Some(f) => match k {
                LineKind::NewFile => ParseAcc {
                    file: Some(FileView { status: FileStatus::Added, ..f }),
                    ..st
                },
                LineKind::DeletedFile => ParseAcc {
                    file: Some(FileView { status: FileStatus::Deleted, ..f }),
                    ..st
                },
                LineKind::RenameFrom => ParseAcc {
                    file: Some(
                        FileView {
                            old_path: Some(unquote_path(line.skip("rename from "@.len() as int))),
                            status: FileStatus::Renamed,
                            ..f
                        },
                    ),
                    ..st
                },
                LineKind::RenameTo => ParseAcc {
                    file: Some(
                        FileView {
                            path: unquote_path(line.skip("rename to "@.len() as int)),
                            status: FileStatus::Renamed,
                            ..f
                        },
                    ),
                    ..st
                },
                LineKind::Binary => ParseAcc { file: Some(FileView { binary: true, ..f }), ..st },
                LineKind::OldPath => {
                    let p = line.skip("--- "@.len() as int);
                    if p == "/dev/null"@ {
                        st
                    } else {
                        let op = patch_path(p);
                        ParseAcc {
                            file: Some(
                                FileView {
                                    path: if f.path.len() == 0 {
                                        op
                                    } else {
                                        f.path
                                    },
                                    old_path: Some(op),
                                    ..f
                                },
                            ),
                            ..st
                        }
                    }
                },
                LineKind::NewPath => {
                    let p = line.skip("+++ "@.len() as int);
                    if p == "/dev/null"@ {
                        st
                    } else {
                        ParseAcc { file: Some(FileView { path: patch_path(p), ..f }), ..st }
                    }
                },
                LineKind::HunkHeader => {
                    let g = flush_hunk_acc(st);
                    match hunk_header_starts(line) {
                        Some((o, n)) => ParseAcc { hunk: Some(new_hunk(line, kind, o, n)), ..g },
                        None => g,
                    }
                },
                _ => match st.hunk {
                    None => st,
                    Some(h) => match k {
                        LineKind::Context => ParseAcc {
                            hunk: Some(context_line(h, line.skip(1))),
                            ..st
                        },
                        LineKind::Deleted => ParseAcc {
                            hunk: Some(deleted_line(h, line.skip(1))),
                            ..st
                        },
                        LineKind::Added => ParseAcc { hunk: Some(added_line(h, line.skip(1))), ..st },
                        _ => st,
                    },
                },
            },
        }
    }
}

/// The state after reading the given lines.
pub open spec fn parse_lines(lines: Seq<Seq<char>>, kind: HunkKind) -> ParseAcc
    decreases lines.len(),
{
    if lines.len() == 0 {
        ParseAcc { files: seq![], file: None, hunk: None }
    } else {
        diff_step(parse_lines(lines.drop_last(), kind), lines.last(), kind)
    }
}

/// The files a unified diff describes, each hunk with its kind; hunk ids are
/// settled afterwards.
pub open spec fn diff_files(patch: Seq<char>, kind: HunkKind) -> Seq<FileView> {
    flush_file_acc(flush_hunk_acc(parse_lines(lines_of(patch), kind))).files
}

/// A hunk header's start lines leave room for `budget` more lines.
pub open spec fn header_fits(line: Seq<char>, budget: nat) -> bool {
    has_prefix(line, "@@ "@) ==> match hunk_header_starts(line) {
        Some((o, n)) => o + budget <= usize::MAX && n + budget <= usize::MAX,
        None => true,
    }
}

/// No line number of the diff can pass `usize::MAX`.
pub open spec fn headers_fit(lines: Seq<Seq<char>>) -> bool {
    forall|i: int| 0 <= i < lines.len() ==> header_fits(#[trigger] lines[i], lines.len())
}

/// The lines not yet counted into the file being read.
pub open spec fn pending(h: Option<HunkAcc>) -> nat {
    match h {
        Some(h) => h.rows.len() + h.deleted.len() + h.added.len(),
        None => 0,
    }
}

/// Counters and line numbers stay within `usize` for the lines still to come.
pub open spec fn within_budget(st: ParseAcc, consumed: nat, remaining: nat) -> bool {
    &&& consumed + remaining <= usize::MAX
    &&& (st.hunk matches Some(h) ==> h.old_line + remaining <= usize::MAX && h.new_line
        + remaining <= usize::MAX)
    &&& (st.file matches Some(f) ==> total_additions(st.files) + f.additions + pending(st.hunk)
        <= consumed && total_deletions(st.files) + f.deletions + pending(st.hunk) <= consumed)
    &&& (st.file is None ==> total_additions(st.files) <= consumed && total_deletions(st.files)
        <= consumed)
    &&& (st.file is None ==> st.hunk is None)
}

/// The added lines counted over a list of files.
pub open spec fn total_additions(files: Seq<FileView>) -> nat
    decreases files.len(),
{
    if files.len() == 0 {
        0
    } else {
        total_additions(files.drop_last()) + files.last().additions
    }
}

/// The deleted lines counted over a list of files.
pub open spec fn total_deletions(files: Seq<FileView>) -> nat
    decreases files.len(),
{
    if files.len() == 0 {
        0
    } else {
        total_deletions(files.drop_last()) + files.last().deletions
    }
}

/// The text of an optional character vector.
pub open spec fn opt_chars(o: Option<Vec<char>>) -> Option<Seq<char>> {
    match o {
        Some(v) => Some(v@),
        None => None,
    }
}

/// Numbered lines as values.
pub open spec fn numbered_view(v: Seq<(usize, Vec<char>)>) -> Seq<(usize, Seq<char>)> {
    v.map_values(|p: (usize, Vec<char>)| (p.0, p.1@))
}

/// A file being read.
struct FileBuilder {
    path: Vec<char>,
    old_path: Option<Vec<char>>,
    status: FileStatus,
    additions: usize,
    deletions: usize,
    hunks: Vec<DiffHunk>,
    binary: bool,
}

impl View for FileBuilder {
    type V = FileView;

    closed spec fn view(&self) -> FileView {
        FileView {
            path: self.path@,
            old_path: opt_chars(self.old_path),
            status: self.status,
            additions: self.additions as nat,
            deletions: self.deletions as nat,
            hunks: hunks_view(self.hunks@),
            binary: self.binary,
        }
    }
}

/// A hunk being read.
struct HunkBuilder {
    header: Vec<char>,
    kind: HunkKind,
    old_line: usize,
    new_line: usize,
    rows: Vec<DiffRow>,
    deleted: Vec<(usize, Vec<char>)>,
    added: Vec<(usize, Vec<char>)>,
}

impl View for HunkBuilder {
    type V = HunkAcc;

    closed spec fn view(&self) -> HunkAcc {
        HunkAcc {
            header: self.header@,
            kind: self.kind,
            old_line: self.old_line,
            new_line: self.new_line,
            rows: rows_view(self.rows@),
            deleted: numbered_view(self.deleted@),
            added: numbered_view(self.added@),
        }
    }
}

fn opt_string(o: &Option<Vec<char>>) -> (r: Option<String>)
    ensures
        opt_text(r) == opt_chars(*o),
{
    match o {
        Some(v) => Some(string_of(v)),
        None => None,
    }
}

impl HunkBuilder {
    fn new(header: Vec<char>, kind: HunkKind, old_line: usize, new_line: usize) -> (r: Self)
        ensures
            r@ == new_hunk(header@, kind, old_line, new_line),
    {
        let r = HunkBuilder {
            header,
            kind,
            old_line,
            new_line,
            rows: Vec::new(),
            deleted: Vec::new(),
            added: Vec::new(),
        };
        assert(r@.rows =~= Seq::<RowView>::empty());
        assert(r@.deleted =~= Seq::<(usize, Seq<char>)>::empty());
        assert(r@.added =~= Seq::<(usize, Seq<char>)>::empty());
        r
    }

    /// Pairs the waiting deleted and added lines into rows.
    fn flush_changes(&mut self)
        ensures
            final(self)@ == flush_pending(old(self)@),
    {
        let ghost start = self@;
        let dl = self.deleted.len();
        let al = self.added.len();
        let count = if dl >= al {
            dl
        } else {
            al
        };
        let mut i: usize = 0;
        while i < count
            invariant
                i <= count,
                count == max_len(start.deleted.len(), start.added.len()),
                dl == self.deleted.len(),
                al == self.added.len(),
                numbered_view(self.deleted@) == start.deleted,
                numbered_view(self.added@) == start.added,
                dl == start.deleted.len(),
                al == start.added.len(),
                self@.header == start.header,
                self@.kind == start.kind,
                self@.old_line == start.old_line,
                self@.new_line == start.new_line,
                rows_view(self.rows@) == start.rows + paired_rows(start.deleted, start.added).take(
                    i as int,
                ),
            decreases count - i,
        {
            let old_number = if i < dl {
                Some(self.deleted[i].0)
            } else {
                None
            };
            let new_number = if i < al {
                Some(self.added[i].0)
            } else {
                None
            };
            let old_text = if i < dl {
                Some(string_of(&self.deleted[i].1))
            } else {
                None
            };
            let new_text = if i < al {
                Some(string_of(&self.added[i].1))
            } else {
                None
            };
            let kind = if i < dl && i < al {
                DiffRowKind::Modified
            } else if i < dl {
                DiffRowKind::Deleted
            } else {
                DiffRowKind::Added
            };
            let row = DiffRow { old_number, new_number, old_text, new_text, kind };
            proof {
                if i < dl {
                    assert(numbered_view(self.deleted@)[i as int] == (
                        self.deleted@[i as int].0,
                        self.deleted@[i as int].1@,
                    ));
                }
                if i < al {
                    assert(numbered_view(self.added@)[i as int] == (
                        self.added@[i as int].0,
                        self.added@[i as int].1@,
                    ));
                }
                assert(row@ == paired_row(start.deleted, start.added, i as int));
            }
            let ghost before = self.rows@;
            self.rows.push(row);
            proof {
                assert(rows_view(self.rows@) =~= rows_view(before).push(row@));
                assert(paired_rows(start.deleted, start.added).take(i + 1) =~= paired_rows(
                    start.deleted,
                    start.added,
                ).take(i as int).push(row@));
            }
            i += 1;
        }
        self.deleted = Vec::new();
        self.added = Vec::new();
        proof {
            assert(paired_rows(start.deleted, start.added).take(count as int) =~= paired_rows(
                start.deleted,
                start.added,
            ));
            assert(numbered_view(self.deleted@) =~= Seq::<(usize, Seq<char>)>::empty());
            assert(numbered_view(self.added@) =~= Seq::<(usize, Seq<char>)>::empty());
        }
    }

    fn push_context(&mut self, text: Vec<char>)
        requires
            old(self)@.old_line < usize::MAX,
            old(self)@.new_line < usize::MAX,
        ensures
            final(self)@ == context_line(old(self)@, text@),
    {
        self.flush_changes();
        let row = DiffRow {
            old_number: Some(self.old_line),
            new_number: Some(self.new_line),
            old_text: Some(string_of(&text)),
            new_text: Some(string_of(&text)),
            kind: DiffRowKind::Context,
        };
        let ghost before = self.rows@;
        self.rows.push(row);
        assert(rows_view(self.rows@) =~= rows_view(before).push(row@));
        self.old_line = self.old_line + 1;
        self.new_line = self.new_line + 1;
    }

    fn push_deleted(&mut self, text: Vec<char>)
        requires
            old(self)@.old_line < usize::MAX,
        ensures
            final(self)@ == deleted_line(old(self)@, text@),
    {
        let ghost before = self.deleted@;
        self.deleted.push((self.old_line, text));
        assert(numbered_view(self.deleted@) =~= numbered_view(before).push(
            (old(self).old_line, text@),
        ));
        self.old_line = self.old_line + 1;
    }

    fn push_added(&mut self, text: Vec<char>)
        requires
            old(self)@.new_line < usize::MAX,
        ensures
            final(self)@ == added_line(old(self)@, text@),
    {
        let ghost before = self.added@;
        self.added.push((self.new_line, text));
        assert(numbered_view(self.added@) =~= numbered_view(before).push(
            (old(self).new_line, text@),
        ));
        self.new_line = self.new_line + 1;
    }

    /// The finished hunk.
    fn finish(self) -> (r: DiffHunk)
        ensures
            r@ == finished_hunk(self@),
    {
        let mut h = self;
        h.flush_changes();
        let id = HunkId::synthetic("parsed");
        DiffHunk { id, header: string_of(&h.header), kind: h.kind, rows: h.rows, collapsed: false }
    }
}

/// Counts the rows that count as added and as deleted lines.
fn count_changes(rows: &Vec<DiffRow>) -> (r: (usize, usize))
    ensures
        r.0 == additions_in(rows_view(rows@)),
        r.1 == deletions_in(rows_view(rows@)),
{
    let mut a: usize = 0;
    let mut d: usize = 0;
    let mut i: usize = 0;
    while i < rows.len()
        invariant
            i <= rows.len(),
            a == additions_in(rows_view(rows@.take(i as int))),
            d == deletions_in(rows_view(rows@.take(i as int))),
            a <= i,
            d <= i,
        decreases rows.len() - i,
    {
        let ghost pre = rows_view(rows@.take(i as int));
        let ghost next = rows_view(rows@.take(i as int + 1));
        assert(next.drop_last() =~= pre);
        assert(next.last() == rows@[i as int]@);
        if rows[i].kind == DiffRowKind::Added || rows[i].kind == DiffRowKind::Modified {
            a += 1;
        }
        if rows[i].kind == DiffRowKind::Deleted || rows[i].kind == DiffRowKind::Modified {
            d += 1;
        }
        i += 1;
    }
    assert(rows@.take(rows.len() as int) =~= rows@);
    (a, d)
}

/// Exact statement of how the counters and line numbers grow: a hunk that is
/// finished adds no more counted lines than it was holding.
proof fn lemma_flush_hunk_budget(st: ParseAcc, consumed: nat, remaining: nat)
    requires
        within_budget(st, consumed, remaining),
    ensures
        within_budget(flush_hunk_acc(st), consumed, remaining),
{
    match (st.file, st.hunk) {
        (Some(f), Some(h)) => {
            let fh = finished_hunk(h);
            lemma_counts_bounded(fh.rows);
        },
        _ => {},
    }
}

/// Finishing the file being read keeps the counters within budget.
proof fn lemma_flush_file_budget(st: ParseAcc, consumed: nat, remaining: nat)
    requires
        within_budget(st, consumed, remaining),
        st.hunk is None,
    ensures
        within_budget(flush_file_acc(st), consumed, remaining),
{
    match st.file {
        Some(f) => {
            if f.path.len() > 0 {
                assert(st.files.push(f).drop_last() =~= st.files);
            }
        },
        None => {},
    }
}

/// One line read keeps the counters and line numbers within budget.
proof fn lemma_step_budget(
    st: ParseAcc,
    line: Seq<char>,
    kind: HunkKind,
    consumed: nat,
    remaining: nat,
)
    requires
        within_budget(st, consumed, remaining),
        remaining > 0,
        header_fits(line, remaining),
    ensures
        within_budget(diff_step(st, line, kind), consumed + 1, (remaining - 1) as nat),
{
    let k = line_kind(line);
    lemma_flush_hunk_budget(st, consumed, remaining);
    if k == LineKind::DiffGit {
        lemma_flush_file_budget(flush_hunk_acc(st), consumed, remaining);
    } else if k == LineKind::HunkHeader {
    } else {
        match (st.file, st.hunk) {
            (Some(f), Some(h)) => {
                let g = flush_pending(h);
                assert(g.rows.len() == h.rows.len() + max_len(h.deleted.len(), h.added.len()));
            },
            _ => {},
        }
    }
}

/// Decides [`line_kind`].
fn classify(line: &Vec<char>) -> (r: LineKind)
    ensures
        r == line_kind(line@),
{
    if starts_with_str(line, "diff --git ") {
        LineKind::DiffGit
    } else if starts_with_str(line, "new file mode ") {
        LineKind::NewFile
    } else if starts_with_str(line, "deleted file mode ") {
        LineKind::DeletedFile
    } else if starts_with_str(line, "rename from ") {
        LineKind::RenameFrom
    } else if starts_with_str(line, "rename to ") {
        LineKind::RenameTo
    } else if starts_with_str(line, "Binary files ") || chars_eq_str(line, "GIT binary patch") {
        LineKind::Binary
    } else if starts_with_str(line, "--- ") {
        LineKind::OldPath
    } else if starts_with_str(line, "+++ ") {
        LineKind::NewPath
    } else if starts_with_str(line, "@@ ") {
        LineKind::HunkHeader
    } else if chars_eq_str(line, "\\ No newline at end of file") {
        LineKind::NoNewline
    } else if starts_with_str(line, " ") {
        LineKind::Context
    } else if starts_with_str(line, "-") {
        LineKind::Deleted
    } else if starts_with_str(line, "+") {
        LineKind::Added
    } else {
        LineKind::Other
    }
}

impl FileBuilder {
    fn new(path: Vec<char>) -> (r: Self)
        ensures
            r@ == new_file(path@),
    {
        let r = FileBuilder {
            path,
            old_path: None,
            status: FileStatus::Modified,
            additions: 0,
            deletions: 0,
            hunks: Vec::new(),
            binary: false,
        };
        assert(r@.hunks =~= Seq::<HunkView>::empty());
        r
    }

    fn finish(self) -> (r: ChangedFile)
        ensures
            r@ == self@,
    {
        ChangedFile {
            path: string_of(&self.path),
            old_path: opt_string(&self.old_path),
            status: self.status,
            additions: self.additions,
            deletions: self.deletions,
            hunks: self.hunks,
            binary: self.binary,
        }
    }
}

/// The reader of a unified diff.
struct Reader {
    files: Vec<ChangedFile>,
    file: Option<FileBuilder>,
    hunk: Option<HunkBuilder>,
}

spec fn file_opt(o: Option<FileBuilder>) -> Option<FileView> {
    match o {
        Some(f) => Some(f@),
        None => None,
    }
}

spec fn hunk_opt(o: Option<HunkBuilder>) -> Option<HunkAcc> {
    match o {
        Some(h) => Some(h@),
        None => None,
    }
}

impl View for Reader {
    type V = ParseAcc;

    closed spec fn view(&self) -> ParseAcc {
        ParseAcc {
            files: files_view(self.files@),
            file: file_opt(self.file),
            hunk: hunk_opt(self.hunk),
        }
    }
}

impl Reader {
    fn flush_hunk(&mut self)
        requires
            old(self)@.file matches Some(f) ==> f.additions + pending(old(self)@.hunk)
                <= usize::MAX && f.deletions + pending(old(self)@.hunk) <= usize::MAX,
        ensures
            final(self)@ == flush_hunk_acc(old(self)@),
    {
        if self.file.is_some() && self.hunk.is_some() {
            let h = self.hunk.take().unwrap();
            let ghost hv = h@;
            let fh = h.finish();
            let (a, d) = count_changes(&fh.rows);
            proof {
                lemma_counts_bounded(fh@.rows);
                assert(fh@.rows.len() == hv.rows.len() + max_len(hv.deleted.len(), hv.added.len()));
            }
            let mut f = self.file.take().unwrap();
            f.additions = f.additions + a;
            f.deletions = f.deletions + d;
            let ghost before = f.hunks@;
            f.hunks.push(fh);
            assert(hunks_view(f.hunks@) =~= hunks_view(before).push(fh@));
            self.file = Some(f);
        } else {
            self.hunk = None;
        }
    }

    fn flush_file(&mut self)
        ensures
            final(self)@ == flush_file_acc(old(self)@),
    {
        let f = self.file.take();
        match f {
            Some(f) => {
                if f.path.len() > 0 {
                    let cf = f.finish();
                    let ghost before = self.files@;
                    self.files.push(cf);
                    assert(files_view(self.files@) =~= files_view(before).push(cf@));
                }
            },
            None => {},
        }
    }

    /// Reads one line.
    fn step(
        &mut self,
        line: &Vec<char>,
        kind: HunkKind,
        Ghost(consumed): Ghost<nat>,
        Ghost(remaining): Ghost<nat>,
    )
        requires
            within_budget(old(self)@, consumed, remaining),
            remaining > 0,
            header_fits(line@, remaining),
        ensures
            final(self)@ == diff_step(old(self)@, line@, kind),
    {
        let k = classify(line);
        proof {
            reveal_strlit("diff --git ");
            reveal_strlit("new file mode ");
            reveal_strlit("deleted file mode ");
            reveal_strlit("rename from ");
            reveal_strlit("rename to ");
            reveal_strlit("--- ");
            reveal_strlit("+++ ");
            reveal_strlit("@@ ");
            reveal_strlit(" ");
            reveal_strlit("-");
            reveal_strlit("+");
        }
        if k == LineKind::DiffGit {
            self.flush_hunk();
            self.flush_file();
            let p = path_from_diff_header(line);
            self.file = Some(FileBuilder::new(p));
            return;
        }
        if self.file.is_none() {
            return;
        }
        if k == LineKind::HunkHeader {
            self.flush_hunk();
            match parse_hunk_header_chars(line) {
                Some((o, n)) => {
                    let header = crate::text::copy_chars(line);
                    self.hunk = Some(HunkBuilder::new(header, kind, o, n));
                },
                None => {},
            }
            return;
        }
        if k == LineKind::NoNewline || k == LineKind::Context || k == LineKind::Deleted || k
            == LineKind::Added || k == LineKind::Other {
            if self.hunk.is_none() {
                return;
            }
            let mut h = self.hunk.take().unwrap();
            if k == LineKind::Context {
                let text = skip_chars(line, 1);
                h.push_context(text);
            } else if k == LineKind::Deleted {
                let text = skip_chars(line, 1);
                h.push_deleted(text);
            } else if k == LineKind::Added {
                let text = skip_chars(line, 1);
                h.push_added(text);
            }
            self.hunk = Some(h);
            return;
        }
        let mut f = self.file.take().unwrap();
        if k == LineKind::NewFile {
            f.status = FileStatus::Added;
        } else if k == LineKind::DeletedFile {
            f.status = FileStatus::Deleted;
        } else if k == LineKind::RenameFrom {
            let rest = skip_chars(line, 12);
            f.old_path = Some(unquote_git_path(&rest));
            f.status = FileStatus::Renamed;
        } else if k == LineKind::RenameTo {
            let rest = skip_chars(line, 10);
            f.path = unquote_git_path(&rest);
            f.status = FileStatus::Renamed;
        } else if k == LineKind::Binary {
            f.binary = true;
        } else if k == LineKind::OldPath {
            let p = skip_chars(line, 4);
            if !chars_eq_str(&p, "/dev/null") {
                let op = parse_patch_path(&p);
                if f.path.len() == 0 {
                    f.path = crate::text::copy_chars(&op);
                }
                f.old_path = Some(op);
            }
        } else {
            let p = skip_chars(line, 4);
            if !chars_eq_str(&p, "/dev/null") {
                f.path = parse_patch_path(&p);
            }
        }
        self.file = Some(f);
    }
}

/// The files of a unified diff, before hunk ids are settled.
pub(crate) fn read_diff(patch: &str, kind: HunkKind) -> (r: Vec<ChangedFile>)
    requires
        headers_fit(lines_of(patch@)),
    ensures
        files_view(r@) == diff_files(patch@, kind),
        total_additions(files_view(r@)) <= patch@.len(),
        total_deletions(files_view(r@)) <= patch@.len(),
{
    let lines = lines_of_str(patch);
    let ghost ls = lines_of(patch@);
    let mut reader = Reader { files: Vec::new(), file: None, hunk: None };
    assert(files_view(reader.files@) =~= Seq::<FileView>::empty());
    let n = lines.len();
    let mut i: usize = 0;
    assert(ls.take(0) =~= Seq::<Seq<char>>::empty());
    while i < n
        invariant
            n == lines@.len(),
            n == ls.len(),
            forall|j: int| 0 <= j < n ==> #[trigger] lines@[j]@ == ls[j],
            headers_fit(ls),
            i <= n,
            reader@ == parse_lines(ls.take(i as int), kind),
            within_budget(reader@, i as nat, (n - i) as nat),
        decreases n - i,
    {
        proof {
            assert(header_fits(ls[i as int], n as nat));
            lemma_step_budget(reader@, ls[i as int], kind, i as nat, (n - i) as nat);
            assert(ls.take(i + 1).drop_last() =~= ls.take(i as int));
        }
        reader.step(&lines[i], kind, Ghost(i as nat), Ghost((n - i) as nat));
        i += 1;
    }
    assert(ls.take(n as int) =~= ls);
    proof {
        lemma_flush_hunk_budget(reader@, n as nat, 0);
        lemma_flush_file_budget(flush_hunk_acc(reader@), n as nat, 0);
        lemma_lines_count(patch@);
    }
    reader.flush_hunk();
    reader.flush_file();
    reader.files
}

/// Every hunk in the list has the given kind.
pub open spec fn hunks_of_kind(hunks: Seq<HunkView>, kind: HunkKind) -> bool {
    forall|i: int| 0 <= i < hunks.len() ==> #[trigger] hunks[i].kind == kind
}

/// Every hunk read so far, and the one being read, has the given kind.
pub open spec fn read_with_kind(st: ParseAcc, kind: HunkKind) -> bool {
    &&& forall|f: int| 0 <= f < st.files.len() ==> hunks_of_kind(#[trigger] st.files[f].hunks, kind)
    &&& st.file matches Some(f) ==> hunks_of_kind(f.hunks, kind)
    &&& st.hunk matches Some(h) ==> h.kind == kind
}

proof fn lemma_flushes_keep_kind(st: ParseAcc, kind: HunkKind)
    requires
        read_with_kind(st, kind),
    ensures
        read_with_kind(flush_hunk_acc(st), kind),
        read_with_kind(flush_file_acc(st), kind),
        read_with_kind(flush_file_acc(flush_hunk_acc(st)), kind),
{
    let g = flush_hunk_acc(st);
    if let (Some(f), Some(h)) = (st.file, st.hunk) {
        assert(with_hunk(f, h).hunks == f.hunks.push(finished_hunk(h)));
        assert(hunks_of_kind(with_hunk(f, h).hunks, kind));
    }
    assert(read_with_kind(g, kind));
    if let Some(f) = st.file {
        if f.path.len() > 0 {
            assert(flush_file_acc(st).files == st.files.push(f));
        }
    }
    if let Some(f) = g.file {
        if f.path.len() > 0 {
            assert(flush_file_acc(g).files == g.files.push(f));
        }
    }
}

proof fn lemma_lines_keep_kind(lines: Seq<Seq<char>>, kind: HunkKind)
    ensures
        read_with_kind(parse_lines(lines, kind), kind),
    decreases lines.len(),
{
    if lines.len() > 0 {
        let st = parse_lines(lines.drop_last(), kind);
        lemma_lines_keep_kind(lines.drop_last(), kind);
        lemma_flushes_keep_kind(st, kind);
        let line = lines.last();
        let next = diff_step(st, line, kind);
        if line_kind(line) == LineKind::DiffGit {
            assert(new_file(diff_header_path(line)).hunks.len() == 0);
            assert(read_with_kind(next, kind));
        } else if line_kind(line) == LineKind::HunkHeader && st.file is Some {
            assert(read_with_kind(next, kind));
        } else {
            assert(read_with_kind(next, kind));
        }
    }
}

/// Every hunk of a parsed diff has the kind it was parsed as.
pub proof fn lemma_diff_files_have_the_kind(patch: Seq<char>, kind: HunkKind)
    ensures
        forall|f: int|
            0 <= f < diff_files(patch, kind).len() ==> hunks_of_kind(
                #[trigger] diff_files(patch, kind)[f].hunks,
                kind,
            ),
{
    let st = parse_lines(lines_of(patch), kind);
    lemma_lines_keep_kind(lines_of(patch), kind);
    lemma_flushes_keep_kind(st, kind);
}

/// Reading a line of a hunk keeps count of both sides: a deleted line takes
/// the current old line number and moves it on by one, leaving the new side;
/// an added line does the same on the new side; a context line becomes a row
/// numbered with both current line numbers, after the lines waiting to be
/// paired, and moves both on by one. No other part of the reading changes.
pub proof fn lemma_hunk_lines_advance_numbers(
    st: ParseAcc,
    line: Seq<char>,
    kind: HunkKind,
)
    requires
        st.file is Some,
        st.hunk is Some,
        st.hunk->0.old_line < usize::MAX,
        st.hunk->0.new_line < usize::MAX,
    ensures
        ({
            let h = st.hunk->0;
            let next = diff_step(st, line, kind);
            let text = line.skip(1);
            &&& line_kind(line) == LineKind::Deleted ==> next.hunk is Some && next.hunk->0.old_line
                == h.old_line + 1 && next.hunk->0.new_line == h.new_line && next.hunk->0.deleted
                == h.deleted.push((h.old_line, text)) && next.hunk->0.added == h.added
                && next.hunk->0.rows == h.rows && next.files == st.files && next.file == st.file
            &&& line_kind(line) == LineKind::Added ==> next.hunk is Some && next.hunk->0.new_line
                == h.new_line + 1 && next.hunk->0.old_line == h.old_line && next.hunk->0.added
                == h.added.push((h.new_line, text)) && next.hunk->0.deleted == h.deleted
                && next.hunk->0.rows == h.rows && next.files == st.files && next.file == st.file
            &&& line_kind(line) == LineKind::Context ==> next.hunk is Some && next.hunk->0.old_line
                == h.old_line + 1 && next.hunk->0.new_line == h.new_line + 1 && next.hunk->0.deleted
                =~= Seq::<(usize, Seq<char>)>::empty() && next.hunk->0.added =~= Seq::<
                (usize, Seq<char>)>::empty() && next.hunk->0.rows == h.rows + paired_rows(
                h.deleted,
                h.added,
            ) + seq![
                RowView {
                    old_number: Some(h.old_line),
                    new_number: Some(h.new_line),
                    old_text: Some(text),
                    new_text: Some(text),
                    kind: DiffRowKind::Context,
                },
            ]
        }),
{
    let h = st.hunk->0;
    let text = line.skip(1);
    if line_kind(line) == LineKind::Context {
        let g = flush_pending(h);
        assert(context_line(h, text).rows =~= h.rows + paired_rows(h.deleted, h.added) + seq![
            RowView {
                old_number: Some(h.old_line),
                new_number: Some(h.new_line),
                old_text: Some(text),
                new_text: Some(text),
                kind: DiffRowKind::Context,
            },
        ]);
    }
}

/// Pairing keeps every waiting line, in order, with its number and text: the
/// `i`-th deleted line is the old side of the `i`-th row and the `i`-th added
/// line its new side; a row with both is modified, one with only an old side
/// deleted, one with only a new side added; there are as many rows as the
/// longer run.
pub proof fn lemma_pairing_keeps_lines(
    deleted: Seq<(usize, Seq<char>)>,
    added: Seq<(usize, Seq<char>)>,
)
    ensures
        paired_rows(deleted, added).len() == if deleted.len() >= added.len() {
            deleted.len()
        } else {
            added.len()
        },
        forall|i: int|
            0 <= i < deleted.len() ==> #[trigger] paired_rows(deleted, added)[i].old_number == Some(
                deleted[i].0,
            ) && paired_rows(deleted, added)[i].old_text == Some(deleted[i].1),
        forall|i: int|
            0 <= i < added.len() ==> #[trigger] paired_rows(deleted, added)[i].new_number == Some(
                added[i].0,
            ) && paired_rows(deleted, added)[i].new_text == Some(added[i].1),
        forall|i: int|
            0 <= i < paired_rows(deleted, added).len() ==> (#[trigger] paired_rows(deleted, added)[i].kind
                == DiffRowKind::Modified <==> i < deleted.len() && i < added.len()),
        forall|i: int|
            0 <= i < paired_rows(deleted, added).len() ==> (#[trigger] paired_rows(deleted, added)[i].kind
                == DiffRowKind::Deleted <==> added.len() <= i < deleted.len()),
        forall|i: int|
            0 <= i < paired_rows(deleted, added).len() ==> (#[trigger] paired_rows(deleted, added)[i].kind
                == DiffRowKind::Added <==> deleted.len() <= i < added.len()),
{
}

} // verus!
