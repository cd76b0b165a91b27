//! Changed files: hunk identities, the merging of staged, unstaged and
//! untracked changes, the order of files, and the assembly of what Git printed
//! into the list the navigator shows.
use vstd::prelude::*;

use crate::model::{
    files_view, hunks_view, rows_view, ChangeMode, ChangedFile, DiffHunk, DiffRow, DiffRowKind,
    DiffView, FileStatus, FileView, HunkId, HunkKind, HunkView, RowView,
};
use crate::patch::{hunk_header_starts, diff_files, headers_fit, header_fits, total_additions, total_deletions};
use crate::text::{
    chars_eq, chars_of, decimal, decimal_chars, has_prefix, lemma_decimal, lines_of, owned, string_of,
    trim,
};

verus! {

/// The status of a file seen in two listings: a conflict wins, then untracked,
/// added, deleted and renamed, in that order; otherwise the file is modified.
pub open spec fn merged_status(left: FileStatus, right: FileStatus) -> FileStatus {
    if left == FileStatus::Conflicted || right == FileStatus::Conflicted {
        FileStatus::Conflicted
    } else if left == FileStatus::Untracked || right == FileStatus::Untracked {
        FileStatus::Untracked
    } else if left == FileStatus::Added || right == FileStatus::Added {
        FileStatus::Added
    } else if left == FileStatus::Deleted || right == FileStatus::Deleted {
        FileStatus::Deleted
    } else if left == FileStatus::Renamed || right == FileStatus::Renamed {
        FileStatus::Renamed
    } else {
        FileStatus::Modified
    }
}

pub fn merge_status(left: FileStatus, right: FileStatus) -> (r: FileStatus)
    ensures
        r == merged_status(left, right),
{
    if left == FileStatus::Conflicted || right == FileStatus::Conflicted {
        FileStatus::Conflicted
    } else if left == FileStatus::Untracked || right == FileStatus::Untracked {
        FileStatus::Untracked
    } else if left == FileStatus::Added || right == FileStatus::Added {
        FileStatus::Added
    } else if left == FileStatus::Deleted || right == FileStatus::Deleted {
        FileStatus::Deleted
    } else if left == FileStatus::Renamed || right == FileStatus::Renamed {
        FileStatus::Renamed
    } else {
        FileStatus::Modified
    }
}

/// Merging two listings of a file keeps the stronger status, in the order
/// conflicted, untracked, added, deleted, renamed, modified: the result is
/// always one of the two, and each status wins over every weaker one (so a
/// staged rename stays a rename when the file is also modified).
pub proof fn lemma_merge_keeps_the_stronger_status(a: FileStatus, b: FileStatus)
    ensures
        merged_status(a, b) == a || merged_status(a, b) == b,
        merged_status(FileStatus::Conflicted, b) == FileStatus::Conflicted,
        b != FileStatus::Conflicted ==> merged_status(FileStatus::Untracked, b)
            == FileStatus::Untracked,
        b != FileStatus::Conflicted && b != FileStatus::Untracked ==> merged_status(
            FileStatus::Added,
            b,
        ) == FileStatus::Added,
        b != FileStatus::Conflicted && b != FileStatus::Untracked && b != FileStatus::Added
            ==> merged_status(FileStatus::Deleted, b) == FileStatus::Deleted,
        b != FileStatus::Conflicted && b != FileStatus::Untracked && b != FileStatus::Added && b
            != FileStatus::Deleted ==> merged_status(FileStatus::Renamed, b) == FileStatus::Renamed
            && merged_status(b, FileStatus::Renamed) == FileStatus::Renamed,
        merged_status(FileStatus::Modified, FileStatus::Modified) == FileStatus::Modified,
        merged_status(a, b) == FileStatus::Modified ==> a == FileStatus::Modified && b
            == FileStatus::Modified,
{
}

/// Merging statuses does not depend on the order of the two listings, a file
/// merged with itself keeps its status, and a conflict always wins.
pub proof fn lemma_merge_status_laws(a: FileStatus, b: FileStatus)
    ensures
        merged_status(a, b) == merged_status(b, a),
        merged_status(a, a) == a,
        merged_status(a, FileStatus::Conflicted) == FileStatus::Conflicted,
{
}

/// How a row kind is printed by `{:?}`.
pub open spec fn kind_debug(k: DiffRowKind) -> Seq<char> {
    match k {
        DiffRowKind::Context => "Context"@,
        DiffRowKind::Added => "Added"@,
        DiffRowKind::Deleted => "Deleted"@,
        DiffRowKind::Modified => "Modified"@,
    }
}

/// The text of an optional text, empty when absent.
pub open spec fn text_or_empty(t: Option<Seq<char>>) -> Seq<char> {
    match t {
        Some(t) => t,
        None => seq![],
    }
}

/// A row written as `Kind|old|new`.
pub open spec fn row_fingerprint(r: RowView) -> Seq<char> {
    kind_debug(r.kind) + "|"@ + text_or_empty(r.old_text) + "|"@ + text_or_empty(r.new_text)
}

/// Row fingerprints joined by the unit separator `U+001F`.
pub open spec fn joined_rows(rows: Seq<RowView>) -> Seq<char>
    decreases rows.len(),
{
    if rows.len() == 0 {
        seq![]
    } else if rows.len() == 1 {
        row_fingerprint(rows[0])
    } else {
        joined_rows(rows.drop_last()) + seq!['\u{1f}'] + row_fingerprint(rows.last())
    }
}

/// What a hunk shows: its kind's tag, a colon, and its rows.
pub open spec fn hunk_fingerprint(h: HunkView) -> Seq<char> {
    h.kind.label_text() + ":"@ + joined_rows(h.rows)
}

/// How many entries of `s` equal `x`.
pub open spec fn count_equal(s: Seq<Seq<char>>, x: Seq<char>) -> nat
    decreases s.len(),
{
    if s.len() == 0 {
        0
    } else {
        count_equal(s.drop_last(), x) + if s.last() == x {
            1nat
        } else {
            0nat
        }
    }
}

/// The id of a hunk: its fingerprint, a colon, and how many earlier hunks of
/// the file show the same.
pub open spec fn hunk_id_text(fingerprint: Seq<char>, occurrence: nat) -> Seq<char> {
    fingerprint + ":"@ + decimal(occurrence)
}

/// The fingerprints of a file's hunks.
pub open spec fn fingerprints(hunks: Seq<HunkView>) -> Seq<Seq<char>> {
    hunks.map_values(|h: HunkView| hunk_fingerprint(h))
}

/// The hunks with their ids settled.
pub open spec fn with_ids(hunks: Seq<HunkView>) -> Seq<HunkView> {
    let fps = fingerprints(hunks);
    Seq::new(
        hunks.len(),
        |i: int|
            HunkView {
                id: hunk_id_text(fps[i], count_equal(fps.take(i), fps[i])),
                ..hunks[i]
            },
    )
}

/// Every file with its hunk ids settled.
pub open spec fn with_hunk_ids(files: Seq<FileView>) -> Seq<FileView> {
    files.map_values(|f: FileView| FileView { hunks: with_ids(f.hunks), ..f })
}

/// The files a unified diff describes, with hunk ids settled.
pub open spec fn parsed_diff(patch: Seq<char>, kind: HunkKind) -> Seq<FileView> {
    with_hunk_ids(diff_files(patch, kind))
}

fn append_str(v: &mut Vec<char>, s: &str)
    ensures
        final(v)@ == old(v)@ + s@,
{
    let mut w = chars_of(s);
    v.append(&mut w);
}

fn append_chars(v: &mut Vec<char>, w: &Vec<char>)
    ensures
        final(v)@ == old(v)@ + w@,
{
    let mut c = crate::text::copy_chars(w);
    v.append(&mut c);
}

fn append_text(v: &mut Vec<char>, t: &Option<String>)
    ensures
        final(v)@ == old(v)@ + text_or_empty(crate::model::opt_text(*t)),
{
    match t {
        Some(s) => {
            let w = chars_of(s.as_str());
            append_chars(v, &w);
        },
        None => {
            assert(old(v)@ + Seq::<char>::empty() =~= old(v)@);
        },
    }
}

fn kind_debug_str(k: DiffRowKind) -> (r: &'static str)
    ensures
        r@ == kind_debug(k),
{
    match k {
        DiffRowKind::Context => "Context",
        DiffRowKind::Added => "Added",
        DiffRowKind::Deleted => "Deleted",
        DiffRowKind::Modified => "Modified",
    }
}

/// The fingerprint of a hunk.
fn fingerprint_of(h: &DiffHunk) -> (r: Vec<char>)
    ensures
        r@ == hunk_fingerprint(h@),
{
    let mut out: Vec<char> = Vec::new();
    append_str(&mut out, h.kind.label());
    append_str(&mut out, ":");
    let ghost head = out@;
    let mut i: usize = 0;
    while i < h.rows.len()
        invariant
            i <= h.rows.len(),
            out@ == head + joined_rows(rows_view(h.rows@).take(i as int)),
        decreases h.rows.len() - i,
    {
        let ghost before = out@;
        let ghost rv = rows_view(h.rows@);
        if i > 0 {
            out.push('\u{1f}');
        }
        append_str(&mut out, kind_debug_str(h.rows[i].kind));
        append_str(&mut out, "|");
        append_text(&mut out, &h.rows[i].old_text);
        append_str(&mut out, "|");
        append_text(&mut out, &h.rows[i].new_text);
        proof {
            let t = rv.take(i as int + 1);
            assert(t.drop_last() =~= rv.take(i as int));
            assert(t.last() == h.rows@[i as int]@);
            if i == 0 {
                assert(t.len() == 1);
                assert(out@ =~= before + row_fingerprint(t[0]));
            } else {
                assert(out@ =~= before + seq!['\u{1f}'] + row_fingerprint(t.last()));
            }
        }
        i += 1;
    }
    assert(rows_view(h.rows@).take(h.rows.len() as int) =~= rows_view(h.rows@));
    out
}

/// Counts the entries of `fps` equal to `x`.
fn count_equal_exec(fps: &Vec<Vec<char>>, x: &Vec<char>) -> (r: usize)
    ensures
        r == count_equal(fps@.map_values(|v: Vec<char>| v@), x@),
{
    let ghost s = fps@.map_values(|v: Vec<char>| v@);
    let mut n: usize = 0;
    let mut i: usize = 0;
    while i < fps.len()
        invariant
            i <= fps.len(),
            s == fps@.map_values(|v: Vec<char>| v@),
            n == count_equal(s.take(i as int), x@),
            n <= i,
        decreases fps.len() - i,
    {
        assert(s.take(i as int + 1).drop_last() =~= s.take(i as int));
        assert(s.take(i as int + 1).last() == fps@[i as int]@);
        if chars_eq(&fps[i], x) {
            n += 1;
        }
        i += 1;
    }
    assert(s.take(fps.len() as int) =~= s);
    n
}

/// `v` in reverse order.
fn reversed<T>(v: Vec<T>) -> (r: Vec<T>)
    ensures
        r@ == v@.reverse(),
{
    let mut v = v;
    let ghost orig = v@;
    let mut r: Vec<T> = Vec::new();
    while v.len() > 0
        invariant
            v@ == orig.take(v@.len() as int),
            r@ == orig.skip(v@.len() as int).reverse(),
            v@.len() <= orig.len(),
        decreases v.len(),
    {
        let ghost k = v@.len();
        let x = v.pop().unwrap();
        proof {
            assert(v@ =~= orig.take(k - 1));
            assert(x == orig[k - 1]);
        }
        r.push(x);
        assert(r@ =~= orig.skip(k - 1).reverse());
    }
    assert(orig.skip(0) =~= orig);
    r
}

/// Gives each hunk of each file its id.
fn assign_hunk_ids(files: Vec<ChangedFile>) -> (r: Vec<ChangedFile>)
    ensures
        files_view(r@) == with_hunk_ids(files_view(files@)),
{
    let ghost fs = files_view(files@);
    let mut pending = reversed(files);
    let mut out: Vec<ChangedFile> = Vec::new();
    let ghost total = fs.len();
    while pending.len() > 0
        invariant
            pending@.len() <= total,
            total == fs.len(),
            files_view(pending@) =~= fs.skip(out@.len() as int).reverse(),
            out@.len() + pending@.len() == total,
            files_view(out@) =~= with_hunk_ids(fs).take(out@.len() as int),
        decreases pending.len(),
    {
        let ghost k = out@.len();
        let ghost before_pending = pending@;
        let f = pending.pop().unwrap();
        proof {
            let pv = files_view(before_pending);
            assert(pv[pv.len() - 1] == before_pending[before_pending.len() - 1]@);
            assert(fs.skip(k as int).reverse()[pv.len() - 1] == fs[k as int]);
            assert(f@ == fs[k as int]);
            assert(files_view(pending@) =~= pv.drop_last());
            assert(fs.skip(k as int).reverse().drop_last() =~= fs.skip(k as int + 1).reverse());
        }
        let mut hunks_rev = reversed(f.hunks);
        let ghost hs = hunks_view(f.hunks@);
        let mut fps: Vec<Vec<char>> = Vec::new();
        let mut new_hunks: Vec<DiffHunk> = Vec::new();
        assert(hs == fs[k as int].hunks);
        while hunks_rev.len() > 0
            invariant
                hunks_view(hunks_rev@) =~= hs.skip(new_hunks@.len() as int).reverse(),
                new_hunks@.len() + hunks_rev@.len() == hs.len(),
                fps@.len() == new_hunks@.len(),
                fps@.map_values(|v: Vec<char>| v@) =~= fingerprints(hs).take(
                    new_hunks@.len() as int,
                ),
                hunks_view(new_hunks@) =~= with_ids(hs).take(new_hunks@.len() as int),
            decreases hunks_rev.len(),
        {
            let ghost j = new_hunks@.len();
            let ghost before_rev = hunks_rev@;
            let h = hunks_rev.pop().unwrap();
            proof {
                let hv = hunks_view(before_rev);
                assert(hv[hv.len() - 1] == before_rev[before_rev.len() - 1]@);
                assert(hs.skip(j as int).reverse()[hv.len() - 1] == hs[j as int]);
                assert(h@ == hs[j as int]);
                assert(hunks_view(hunks_rev@) =~= hv.drop_last());
                assert(hs.skip(j as int).reverse().drop_last() =~= hs.skip(j as int + 1).reverse());
            }
            let fp = fingerprint_of(&h);
            let occurrence = count_equal_exec(&fps, &fp);
            let mut id = crate::text::copy_chars(&fp);
            id.push(':');
            let mut digits = decimal_chars(occurrence);
            id.append(&mut digits);
            let nh = DiffHunk {
                id: HunkId(string_of(&id)),
                header: h.header,
                kind: h.kind,
                rows: h.rows,
                collapsed: h.collapsed,
            };
            proof {
                reveal_strlit(":");
                assert(fingerprints(hs)[j as int] == fp@);
                assert(id@ =~= hunk_id_text(fp@, occurrence as nat));
                assert(nh@.id == with_ids(hs)[j as int].id);
                assert(nh@.rows == hs[j as int].rows);
                assert(nh@ == with_ids(hs)[j as int]);
            }
            let ghost before_fps = fps@;
            let ghost before_new = new_hunks@;
            fps.push(fp);
            new_hunks.push(nh);
            proof {
                assert(fps@.map_values(|v: Vec<char>| v@) =~= before_fps.map_values(
                    |v: Vec<char>| v@,
                ).push(fp@));
                assert(hunks_view(new_hunks@) =~= hunks_view(before_new).push(nh@));
            }
        }
        let nf = ChangedFile {
            path: f.path,
            old_path: f.old_path,
            status: f.status,
            additions: f.additions,
            deletions: f.deletions,
            hunks: new_hunks,
            binary: f.binary,
        };
        proof {
            assert(hunks_view(new_hunks@) =~= with_ids(hs));
            assert(nf@ == with_hunk_ids(fs)[k as int]);
        }
        let ghost before = out@;
        out.push(nf);
        assert(files_view(out@) =~= files_view(before).push(nf@));
    }
    out
}

/// Reads a unified diff into files; every hunk gets the given kind and an id
/// that is distinct among the hunks of its file.
pub fn parse_diff(patch: &str, kind: HunkKind) -> (r: Vec<ChangedFile>)
    requires
        headers_fit(lines_of(patch@)),
    ensures
        files_view(r@) == parsed_diff(patch@, kind),
        total_additions(files_view(r@)) <= patch@.len(),
        total_deletions(files_view(r@)) <= patch@.len(),
{
    let files = crate::patch::read_diff(patch, kind);
    let r = assign_hunk_ids(files);
    proof {
        lemma_ids_keep_counts(diff_files(patch@, kind));
    }
    r
}

/// Settling ids changes no counted line.
proof fn lemma_ids_keep_counts(files: Seq<FileView>)
    ensures
        total_additions(with_hunk_ids(files)) == total_additions(files),
        total_deletions(with_hunk_ids(files)) == total_deletions(files),
    decreases files.len(),
{
    if files.len() > 0 {
        lemma_ids_keep_counts(files.drop_last());
        assert(with_hunk_ids(files).drop_last() =~= with_hunk_ids(files.drop_last()));
    }
}

/// A text split at its last colon: what follows the colon holds no colon.
proof fn lemma_split_at_last_colon(x1: Seq<char>, d1: Seq<char>, x2: Seq<char>, d2: Seq<char>)
    requires
        forall|i: int| 0 <= i < d1.len() ==> d1[i] != ':',
        forall|i: int| 0 <= i < d2.len() ==> d2[i] != ':',
        x1 + seq![':'] + d1 == x2 + seq![':'] + d2,
    ensures
        x1 == x2,
        d1 == d2,
{
    let s1 = x1 + seq![':'] + d1;
    let s2 = x2 + seq![':'] + d2;
    if d1.len() < d2.len() {
        let p = s1.len() - d1.len() - 1;
        assert(s1[p] == ':');
        assert(s2[p] == d2[p - x2.len() - 1]);
    } else if d2.len() < d1.len() {
        let p = s2.len() - d2.len() - 1;
        assert(s2[p] == ':');
        assert(s1[p] == d1[p - x1.len() - 1]);
    }
    assert(x1 =~= s1.take(x1.len() as int));
    assert(x2 =~= s2.take(x2.len() as int));
    assert(d1 =~= s1.skip(x1.len() as int + 1));
    assert(d2 =~= s2.skip(x2.len() as int + 1));
}

/// Counting up to a later position counts at least the earlier entries, and
/// the earlier entry itself.
proof fn lemma_count_equal_grows(s: Seq<Seq<char>>, x: Seq<char>, i: int, j: int)
    requires
        0 <= i < j <= s.len(),
    ensures
        count_equal(s.take(j), x) >= count_equal(s.take(i), x) + if s[i] == x {
            1nat
        } else {
            0nat
        },
    decreases j - i,
{
    assert(s.take(j).drop_last() =~= s.take(j - 1));
    if j - 1 > i {
        lemma_count_equal_grows(s, x, i, j - 1);
    } else {
        assert(s.take(j).last() == s[i]);
    }
}

/// Two hunks of one file never share an id, even when they show the same rows.
pub proof fn lemma_hunk_ids_distinct(hunks: Seq<HunkView>, i: int, j: int)
    requires
        0 <= i < j < hunks.len(),
    ensures
        with_ids(hunks)[i].id != with_ids(hunks)[j].id,
{
    let fps = fingerprints(hunks);
    let a = count_equal(fps.take(i), fps[i]);
    let b = count_equal(fps.take(j), fps[j]);
    if with_ids(hunks)[i].id == with_ids(hunks)[j].id {
        lemma_decimal(a);
        lemma_decimal(b);
        assert forall|k: int| 0 <= k < decimal(a).len() implies decimal(a)[k] != ':' by {
            assert(crate::text::is_digit(decimal(a)[k]));
        }
        assert forall|k: int| 0 <= k < decimal(b).len() implies decimal(b)[k] != ':' by {
            assert(crate::text::is_digit(decimal(b)[k]));
        }
        reveal_strlit(":");
        assert(":"@ =~= seq![':']);
        lemma_split_at_last_colon(fps[i], decimal(a), fps[j], decimal(b));
        assert(a == b);
        lemma_count_equal_grows(fps, fps[j], i, j);
        assert(false);
    }
}

/// The hunks of every file of a parsed diff carry pairwise distinct ids.
pub proof fn lemma_parsed_ids_distinct(patch: Seq<char>, kind: HunkKind, f: int, i: int, j: int)
    requires
        0 <= f < parsed_diff(patch, kind).len(),
        0 <= i < j < parsed_diff(patch, kind)[f].hunks.len(),
    ensures
        parsed_diff(patch, kind)[f].hunks[i].id != parsed_diff(patch, kind)[f].hunks[j].id,
{
    lemma_hunk_ids_distinct(diff_files(patch, kind)[f].hunks, i, j);
}

proof fn lemma_labels_tell_kinds(k1: HunkKind, k2: HunkKind, a: Seq<char>, b: Seq<char>)
    requires
        k1 != k2,
        a.len() >= 3,
        b.len() >= 3,
        a[0] == k1.label_text()[0],
        a[2] == k1.label_text()[2],
        b[0] == k2.label_text()[0],
        b[2] == k2.label_text()[2],
    ensures
        a != b,
{
    reveal_strlit("STAGED");
    reveal_strlit("UNSTAGED");
    reveal_strlit("BRANCH");
    reveal_strlit("FULL FILE");
    reveal_strlit("UNTRACKED");
    if a == b {
        assert(a[0] == b[0] && a[2] == b[2]);
    }
}

proof fn lemma_id_starts_with_label(h: HunkView, occurrence: nat)
    ensures
        hunk_id_text(hunk_fingerprint(h), occurrence).len() >= 3,
        hunk_id_text(hunk_fingerprint(h), occurrence)[0] == h.kind.label_text()[0],
        hunk_id_text(hunk_fingerprint(h), occurrence)[2] == h.kind.label_text()[2],
{
    reveal_strlit("STAGED");
    reveal_strlit("UNSTAGED");
    reveal_strlit("BRANCH");
    reveal_strlit("FULL FILE");
    reveal_strlit("UNTRACKED");
    assert(h.kind.label_text().len() >= 3);
}

/// Parses of one diff as two different kinds never share a hunk id: each id
/// begins with its kind's tag, so staged and unstaged hunks of a file keep
/// distinct ids when merged.
pub proof fn lemma_kinds_keep_ids_apart(
    patch: Seq<char>,
    first: HunkKind,
    second: HunkKind,
    f: int,
    i: int,
    g: int,
    j: int,
)
    requires
        first != second,
        0 <= f < parsed_diff(patch, first).len(),
        0 <= i < parsed_diff(patch, first)[f].hunks.len(),
        0 <= g < parsed_diff(patch, second).len(),
        0 <= j < parsed_diff(patch, second)[g].hunks.len(),
    ensures
        parsed_diff(patch, first)[f].hunks[i].id != parsed_diff(patch, second)[g].hunks[j].id,
{
    crate::patch::lemma_diff_files_have_the_kind(patch, first);
    crate::patch::lemma_diff_files_have_the_kind(patch, second);
    let a = diff_files(patch, first)[f].hunks;
    let b = diff_files(patch, second)[g].hunks;
    assert(a[i].kind == first);
    assert(b[j].kind == second);
    let fa = fingerprints(a);
    let fb = fingerprints(b);
    lemma_id_starts_with_label(a[i], count_equal(fa.take(i), fa[i]));
    lemma_id_starts_with_label(b[j], count_equal(fb.take(j), fb[j]));
    lemma_labels_tell_kinds(
        first,
        second,
        parsed_diff(patch, first)[f].hunks[i].id,
        parsed_diff(patch, second)[g].hunks[j].id,
    );
}

/// The position of the first file with the given path.
pub open spec fn find_path(files: Seq<FileView>, path: Seq<char>) -> Option<nat>
    decreases files.len(),
{
    if files.len() == 0 {
        None
    } else if files[0].path == path {
        Some(0)
    } else {
        match find_path(files.drop_first(), path) {
            Some(k) => Some(k + 1),
            None => None,
        }
    }
}

/// A file listed twice, as one: counts added up, hunks of the second listing
/// after those of the first, the first old path kept unless there is none.
pub open spec fn merged_file(e: FileView, f: FileView) -> FileView {
    FileView {
        path: e.path,
        old_path: if e.old_path is None {
            f.old_path
        } else {
            e.old_path
        },
        status: merged_status(e.status, f.status),
        additions: e.additions + f.additions,
        deletions: e.deletions + f.deletions,
        hunks: e.hunks + f.hunks,
        binary: e.binary || f.binary,
    }
}

/// One more listed file: merged into the first file of the same path, or
/// appended.
pub open spec fn merge_one(target: Seq<FileView>, f: FileView) -> Seq<FileView> {
    match find_path(target, f.path) {
        Some(i) => target.update(i as int, merged_file(target[i as int], f)),
        None => target.push(f),
    }
}

/// The incoming files merged one after another.
pub open spec fn merge_all(target: Seq<FileView>, incoming: Seq<FileView>) -> Seq<FileView>
    decreases incoming.len(),
{
    if incoming.len() == 0 {
        target
    } else {
        merge_one(merge_all(target, incoming.drop_last()), incoming.last())
    }
}

proof fn lemma_find_path(files: Seq<FileView>, path: Seq<char>, i: int)
    requires
        0 <= i <= files.len(),
        forall|j: int| 0 <= j < i ==> files[j].path != path,
    ensures
        i < files.len() && files[i].path == path ==> find_path(files, path) == Some(i as nat),
        i == files.len() ==> find_path(files, path) is None,
    decreases i,
{
    if i > 0 {
        lemma_find_path(files.drop_first(), path, i - 1);
    }
}

/// One file's counts never exceed the total.
proof fn lemma_file_within_total(files: Seq<FileView>, i: int)
    requires
        0 <= i < files.len(),
    ensures
        files[i].additions <= total_additions(files),
        files[i].deletions <= total_deletions(files),
    decreases files.len(),
{
    if i < files.len() - 1 {
        lemma_file_within_total(files.drop_last(), i);
    }
}

/// Replacing one file changes the totals by the difference.
proof fn lemma_total_update(files: Seq<FileView>, i: int, x: FileView)
    requires
        0 <= i < files.len(),
    ensures
        total_additions(files.update(i, x)) + files[i].additions == total_additions(files)
            + x.additions,
        total_deletions(files.update(i, x)) + files[i].deletions == total_deletions(files)
            + x.deletions,
    decreases files.len(),
{
    if i < files.len() - 1 {
        lemma_total_update(files.drop_last(), i, x);
        assert(files.update(i, x).drop_last() =~= files.drop_last().update(i, x));
    } else {
        assert(files.update(i, x).drop_last() =~= files.drop_last());
    }
}

/// Merging adds the incoming counts to the totals.
pub proof fn lemma_merge_totals(target: Seq<FileView>, incoming: Seq<FileView>)
    ensures
        total_additions(merge_all(target, incoming)) == total_additions(target) + total_additions(
            incoming,
        ),
        total_deletions(merge_all(target, incoming)) == total_deletions(target) + total_deletions(
            incoming,
        ),
    decreases incoming.len(),
{
    if incoming.len() > 0 {
        lemma_merge_totals(target, incoming.drop_last());
        let t = merge_all(target, incoming.drop_last());
        let f = incoming.last();
        match find_path(t, f.path) {
            Some(i) => {
                lemma_find_path_in_bounds(t, f.path);
                lemma_total_update(t, i as int, merged_file(t[i as int], f));
            },
            None => {
                assert(t.push(f).drop_last() =~= t);
            },
        }
    }
}

proof fn lemma_find_path_in_bounds(files: Seq<FileView>, path: Seq<char>)
    ensures
        find_path(files, path) matches Some(i) ==> i < files.len() && files[i as int].path == path,
    decreases files.len(),
{
    if files.len() > 0 {
        lemma_find_path_in_bounds(files.drop_first(), path);
    }
}

/// The first file with the given path.
fn find_file(files: &Vec<ChangedFile>, path: &String) -> (r: Option<usize>)
    ensures
        r matches Some(i) ==> find_path(files_view(files@), path@) == Some(i as nat) && i
            < files@.len(),
        r is None ==> find_path(files_view(files@), path@) is None,
{
    let ghost fv = files_view(files@);
    let mut j: usize = 0;
    while j < files.len()
        invariant
            j <= files.len(),
            fv == files_view(files@),
            forall|q: int| 0 <= q < j ==> fv[q].path != path@,
        decreases files.len() - j,
    {
        assert(fv[j as int] == files@[j as int]@);
        if files[j].path == *path {
            proof {
                lemma_find_path(fv, path@, j as int);
            }
            return Some(j);
        }
        j += 1;
    }
    proof {
        lemma_find_path(fv, path@, j as int);
    }
    None
}

/// Merges the incoming files into the target: a file already listed gets the
/// incoming counts, hunks, binary flag and status merged in; a new path is
/// appended.
pub fn merge_files(target: &mut Vec<ChangedFile>, incoming: Vec<ChangedFile>)
    requires
        total_additions(files_view(old(target)@)) + total_additions(files_view(incoming@))
            <= usize::MAX,
        total_deletions(files_view(old(target)@)) + total_deletions(files_view(incoming@))
            <= usize::MAX,
    ensures
        files_view(final(target)@) == merge_all(files_view(old(target)@), files_view(incoming@)),
{
    let ghost t0 = files_view(target@);
    let ghost inc = files_view(incoming@);
    let mut pending = reversed(incoming);
    let ghost total = inc.len();
    let n_in = pending.len();
    let mut k: usize = 0;
    assert(inc.take(0) =~= Seq::<FileView>::empty());
    while pending.len() > 0
        invariant
            total == inc.len(),
            n_in == total,
            k + pending@.len() == total,
            files_view(pending@) =~= inc.skip(k as int).reverse(),
            files_view(target@) == merge_all(t0, inc.take(k as int)),
            total_additions(t0) + total_additions(inc) <= usize::MAX,
            total_deletions(t0) + total_deletions(inc) <= usize::MAX,
        decreases pending.len(),
    {
        let ghost before_pending = pending@;
        let file = pending.pop().unwrap();
        proof {
            let pv = files_view(before_pending);
            assert(pv[pv.len() - 1] == before_pending[before_pending.len() - 1]@);
            assert(inc.skip(k as int).reverse()[pv.len() - 1] == inc[k as int]);
            assert(files_view(pending@) =~= pv.drop_last());
            assert(inc.skip(k as int).reverse().drop_last() =~= inc.skip(k as int + 1).reverse());
            assert(inc.take(k as int + 1).drop_last() =~= inc.take(k as int));
            lemma_merge_totals(t0, inc.take(k as int + 1));
            lemma_prefix_totals(inc, k as int + 1);
        }
        let ghost tv = files_view(target@);
        let found = find_file(target, &file.path);
        match found {
            Some(i) => {
                proof {
                    lemma_file_within_total(merge_all(t0, inc.take(k as int + 1)), i as int);
                    lemma_find_path_in_bounds(tv, file@.path);
                    assert(merge_all(t0, inc.take(k as int + 1)) == merge_one(tv, file@));
                    assert(merge_one(tv, file@)[i as int] == merged_file(tv[i as int], file@));
                }
                let mut existing = target.remove(i);
                assert(existing@ == tv[i as int]);
                existing.additions = existing.additions + file.additions;
                existing.deletions = existing.deletions + file.deletions;
                existing.binary = existing.binary || file.binary;
                let ghost eh = existing.hunks@;
                let mut fh = file.hunks;
                let ghost fhv = fh@;
                existing.hunks.append(&mut fh);
                assert(hunks_view(existing.hunks@) =~= hunks_view(eh) + hunks_view(fhv));
                if existing.old_path.is_none() {
                    existing.old_path = file.old_path;
                }
                existing.status = merge_status(existing.status, file.status);
                target.insert(i, existing);
                assert(files_view(target@) =~= tv.update(i as int, merged_file(tv[i as int], file@)));
            },
            None => {
                let ghost before = target@;
                target.push(file);
                assert(files_view(target@) =~= files_view(before).push(file@));
            },
        }
        k += 1;
    }
    assert(inc.take(total as int) =~= inc);
}

/// The totals of a prefix never exceed the totals.
proof fn lemma_prefix_totals(files: Seq<FileView>, k: int)
    requires
        0 <= k <= files.len(),
    ensures
        total_additions(files.take(k)) <= total_additions(files),
        total_deletions(files.take(k)) <= total_deletions(files),
    decreases files.len() - k,
{
    if k < files.len() {
        lemma_prefix_totals(files.drop_last(), k);
        assert(files.drop_last().take(k) =~= files.take(k));
    } else {
        assert(files.take(k) =~= files);
    }
}

/// Path characters in order, except that the separator sorts before every
/// other character, so that a path orders by its parts as Git prints them
/// (relative, without empty, `.` or `..` parts).
pub open spec fn path_char_lt(a: char, b: char) -> bool {
    if a == '/' {
        b != '/'
    } else if b == '/' {
        false
    } else {
        a < b
    }
}

/// `a` sorts no later than `b`.
pub open spec fn path_le(a: Seq<char>, b: Seq<char>) -> bool
    decreases a.len(),
{
    if a.len() == 0 {
        true
    } else if b.len() == 0 {
        false
    } else if a[0] != b[0] {
        path_char_lt(a[0], b[0])
    } else {
        path_le(a.drop_first(), b.drop_first())
    }
}

/// Path order is total: of two paths, one sorts no later than the other.
pub proof fn lemma_path_le_total(a: Seq<char>, b: Seq<char>)
    ensures
        path_le(a, b) || path_le(b, a),
    decreases a.len(),
{
    if a.len() > 0 && b.len() > 0 && a[0] == b[0] {
        lemma_path_le_total(a.drop_first(), b.drop_first());
    }
}

/// Path order is antisymmetric: paths that sort no later than each other are
/// equal.
pub proof fn lemma_path_le_antisymmetric(a: Seq<char>, b: Seq<char>)
    requires
        path_le(a, b),
        path_le(b, a),
    ensures
        a == b,
    decreases a.len(),
{
    if a.len() > 0 && b.len() > 0 {
        if a[0] == b[0] {
            lemma_path_le_antisymmetric(a.drop_first(), b.drop_first());
            assert(a =~= seq![a[0]] + a.drop_first());
            assert(b =~= seq![b[0]] + b.drop_first());
        }
    } else {
        assert(a.len() == 0 && b.len() == 0);
        assert(a =~= b);
    }
}

/// Path order is transitive.
pub proof fn lemma_path_le_transitive(a: Seq<char>, b: Seq<char>, c: Seq<char>)
    requires
        path_le(a, b),
        path_le(b, c),
    ensures
        path_le(a, c),
    decreases a.len(),
{
    if a.len() > 0 && b.len() > 0 && c.len() > 0 {
        if a[0] == b[0] && b[0] == c[0] {
            lemma_path_le_transitive(a.drop_first(), b.drop_first(), c.drop_first());
        }
    }
}

/// Every path sorts no later than itself.
pub proof fn lemma_path_le_reflexive(a: Seq<char>)
    ensures
        path_le(a, a),
    decreases a.len(),
{
    if a.len() > 0 {
        lemma_path_le_reflexive(a.drop_first());
    }
}

/// `x` placed after every file that sorts no later than it.
pub open spec fn insert_by_path(sorted: Seq<FileView>, x: FileView) -> Seq<FileView>
    decreases sorted.len(),
{
    if sorted.len() == 0 {
        seq![x]
    } else if path_le(sorted.last().path, x.path) {
        sorted.push(x)
    } else {
        insert_by_path(sorted.drop_last(), x).push(sorted.last())
    }
}

/// The files in path order; files of equal path keep their order.
pub open spec fn sorted_by_path(s: Seq<FileView>) -> Seq<FileView>
    decreases s.len(),
{
    if s.len() == 0 {
        s
    } else {
        insert_by_path(sorted_by_path(s.drop_last()), s.last())
    }
}

/// Decides [`path_le`].
fn path_le_exec(a: &String, b: &String) -> (r: bool)
    ensures
        r == path_le(a@, b@),
{
    let x = chars_of(a.as_str());
    let y = chars_of(b.as_str());
    let mut i: usize = 0;
    assert(x@.skip(0) =~= x@);
    assert(y@.skip(0) =~= y@);
    while i < x.len() && i < y.len()
        invariant
            i <= x.len(),
            i <= y.len(),
            x@ == a@,
            y@ == b@,
            path_le(x@, y@) == path_le(x@.skip(i as int), y@.skip(i as int)),
        decreases x.len() - i,
    {
        let cx = x[i];
        let cy = y[i];
        assert(x@.skip(i as int)[0] == cx);
        assert(y@.skip(i as int)[0] == cy);
        if cx != cy {
            if cx == '/' {
                return true;
            } else if cy == '/' {
                return false;
            } else {
                return cx < cy;
            }
        }
        assert(x@.skip(i as int).drop_first() =~= x@.skip(i as int + 1));
        assert(y@.skip(i as int).drop_first() =~= y@.skip(i as int + 1));
        i += 1;
    }
    i == x.len()
}

/// Files in path order.
pub open spec fn path_sorted(s: Seq<FileView>) -> bool {
    forall|i: int, j: int| 0 <= i < j < s.len() ==> path_le(s[i].path, s[j].path)
}

proof fn lemma_insert_bounded(sorted: Seq<FileView>, x: FileView, bound: Seq<char>)
    requires
        forall|i: int| 0 <= i < sorted.len() ==> path_le(#[trigger] sorted[i].path, bound),
        path_le(x.path, bound),
    ensures
        forall|i: int|
            0 <= i < insert_by_path(sorted, x).len() ==> path_le(
                #[trigger] insert_by_path(sorted, x)[i].path,
                bound,
            ),
    decreases sorted.len(),
{
    if sorted.len() > 0 && !path_le(sorted.last().path, x.path) {
        lemma_insert_bounded(sorted.drop_last(), x, bound);
        let inner = insert_by_path(sorted.drop_last(), x);
        assert forall|i: int| 0 <= i < inner.push(sorted.last()).len() implies path_le(
            #[trigger] inner.push(sorted.last())[i].path,
            bound,
        ) by {
            if i < inner.len() {
                assert(inner.push(sorted.last())[i] == inner[i]);
            } else {
                assert(sorted[sorted.len() - 1] == sorted.last());
            }
        }
    }
}

proof fn lemma_insert_keeps_order(sorted: Seq<FileView>, x: FileView)
    requires
        path_sorted(sorted),
    ensures
        path_sorted(insert_by_path(sorted, x)),
        insert_by_path(sorted, x).to_multiset() == sorted.to_multiset().insert(x),
    decreases sorted.len(),
{
    broadcast use vstd::seq_lib::to_multiset_build;

    if sorted.len() == 0 {
        assert(seq![x] =~= sorted.push(x));
        assert(sorted.push(x).to_multiset() == sorted.to_multiset().insert(x));
    } else if path_le(sorted.last().path, x.path) {
        let r = sorted.push(x);
        assert(sorted.push(x).to_multiset() == sorted.to_multiset().insert(x));
        assert forall|i: int, j: int| 0 <= i < j < r.len() implies path_le(r[i].path, r[j].path) by {
            if j == sorted.len() {
                if i < sorted.len() - 1 {
                    lemma_path_le_transitive(sorted[i].path, sorted.last().path, x.path);
                }
            }
        }
    } else {
        let rest = sorted.drop_last();
        let last = sorted.last();
        assert(path_sorted(rest));
        lemma_insert_keeps_order(rest, x);
        lemma_path_le_total(last.path, x.path);
        lemma_insert_bounded(rest, x, last.path);
        let inner = insert_by_path(rest, x);
        let r = inner.push(last);
        assert forall|i: int, j: int| 0 <= i < j < r.len() implies path_le(r[i].path, r[j].path) by {
            if j < inner.len() {
                assert(r[i] == inner[i] && r[j] == inner[j]);
            } else {
                assert(r[i] == inner[i]);
            }
        }
        assert(sorted =~= rest.push(last));
        assert(inner.push(last).to_multiset() == inner.to_multiset().insert(last));
        assert(rest.push(last).to_multiset() == rest.to_multiset().insert(last));
        assert(r.to_multiset() =~= sorted.to_multiset().insert(x)) by {
            broadcast use vstd::multiset::group_multiset_axioms;

        }
    }
}

/// Sorting by path gives the files in path order, each file as often as
/// before.
pub proof fn lemma_sort_by_path_sorts(s: Seq<FileView>)
    ensures
        path_sorted(sorted_by_path(s)),
        sorted_by_path(s).to_multiset() == s.to_multiset(),
    decreases s.len(),
{
    broadcast use vstd::seq_lib::to_multiset_build;

    if s.len() > 0 {
        lemma_sort_by_path_sorts(s.drop_last());
        lemma_insert_keeps_order(sorted_by_path(s.drop_last()), s.last());
        assert(s =~= s.drop_last().push(s.last()));
    }
}

proof fn lemma_insert_at(sorted: Seq<FileView>, x: FileView, pos: int)
    requires
        0 <= pos <= sorted.len(),
        forall|q: int| pos <= q < sorted.len() ==> !path_le(#[trigger] sorted[q].path, x.path),
        pos > 0 ==> path_le(sorted[pos - 1].path, x.path),
    ensures
        insert_by_path(sorted, x) == sorted.take(pos).push(x) + sorted.skip(pos),
    decreases sorted.len() - pos,
{
    if pos == sorted.len() {
        if sorted.len() == 0 {
            assert(sorted.take(0).push(x) + sorted.skip(0) =~= seq![x]);
        } else {
            assert(sorted.take(pos).push(x) + sorted.skip(pos) =~= sorted.push(x));
        }
    } else {
        lemma_insert_at(sorted.drop_last(), x, pos);
        assert(sorted.drop_last().take(pos).push(x) + sorted.drop_last().skip(pos) + seq![
            sorted.last(),
        ] =~= sorted.take(pos).push(x) + sorted.skip(pos));
        assert(!path_le(sorted[sorted.len() - 1].path, x.path));
    }
}

/// Sorts files by path, keeping the order of files of equal path.
pub fn sort_by_path(files: Vec<ChangedFile>) -> (r: Vec<ChangedFile>)
    ensures
        files_view(r@) == sorted_by_path(files_view(files@)),
{
    let ghost fv = files_view(files@);
    let mut pending = reversed(files);
    let n = pending.len();
    let mut k: usize = 0;
    let mut out: Vec<ChangedFile> = Vec::new();
    assert(fv.take(0) =~= Seq::<FileView>::empty());
    while pending.len() > 0
        invariant
            n == fv.len(),
            k + pending@.len() == n,
            files_view(pending@) =~= fv.skip(k as int).reverse(),
            files_view(out@) == sorted_by_path(fv.take(k as int)),
        decreases pending.len(),
    {
        let ghost before_pending = pending@;
        let x = pending.pop().unwrap();
        proof {
            let pv = files_view(before_pending);
            assert(pv[pv.len() - 1] == before_pending[before_pending.len() - 1]@);
            assert(fv.skip(k as int).reverse()[pv.len() - 1] == fv[k as int]);
            assert(files_view(pending@) =~= pv.drop_last());
            assert(fv.skip(k as int).reverse().drop_last() =~= fv.skip(k as int + 1).reverse());
            assert(fv.take(k as int + 1).drop_last() =~= fv.take(k as int));
        }
        let ghost ov = files_view(out@);
        let mut pos: usize = out.len();
        while pos > 0 && !path_le_exec(&out[pos - 1].path, &x.path)
            invariant
                pos <= out@.len(),
                ov == files_view(out@),
                forall|q: int| pos <= q < ov.len() ==> !path_le(#[trigger] ov[q].path, x@.path),
            decreases pos,
        {
            assert(ov[pos - 1] == out@[pos - 1]@);
            pos -= 1;
        }
        proof {
            if pos > 0 {
                assert(ov[pos - 1] == out@[pos - 1]@);
            }
            lemma_insert_at(ov, x@, pos as int);
        }
        out.insert(pos, x);
        assert(files_view(out@) =~= ov.take(pos as int).push(x@) + ov.skip(pos as int));
        k += 1;
    }
    assert(fv.take(n as int) =~= fv);
    out
}

/// The added rows of an untracked file: every line, numbered from one.
pub open spec fn untracked_rows(lines: Seq<Seq<char>>) -> Seq<RowView> {
    Seq::new(
        lines.len(),
        |i: int|
            RowView {
                old_number: None,
                new_number: Some((i + 1) as usize),
                old_text: None,
                new_text: Some(lines[i]),
                kind: DiffRowKind::Added,
            },
    )
}

/// An untracked file as the navigator lists it: binary when its contents hold a
/// zero byte or are not UTF-8; otherwise every line is an addition, shown in
/// one hunk when there is any line.
pub open spec fn untracked_view(path: Seq<char>, contents: Seq<u8>) -> FileView {
    let empty = FileView {
        path,
        old_path: None,
        status: FileStatus::Untracked,
        additions: 0,
        deletions: 0,
        hunks: seq![],
        binary: false,
    };
    if contents.contains(0u8) || !vstd::utf8::valid_utf8(contents) {
        FileView { binary: true, ..empty }
    } else {
        let ls = lines_of(vstd::utf8::decode_utf8(contents));
        FileView {
            additions: ls.len(),
            hunks: if ls.len() > 0 {
                seq![
                    HunkView {
                        id: path + ":untracked"@,
                        header: "@@ -0,0 +1,"@ + decimal(ls.len()) + " @@"@,
                        kind: HunkKind::Untracked,
                        rows: untracked_rows(ls),
                        collapsed: false,
                    },
                ]
            } else {
                seq![]
            },
            ..empty
        }
    }
}

/// `String::from_utf8`: the text of the bytes when they are valid UTF-8.
#[verifier::external_body]
fn utf8_text(bytes: &[u8]) -> (r: Option<String>)
    ensures
        r is Some <==> vstd::utf8::valid_utf8(bytes@),
        r matches Some(s) ==> s@ == vstd::utf8::decode_utf8(bytes@),
{
    String::from_utf8(bytes.to_vec()).ok()
}

/// Whether a zero byte occurs.
fn contains_zero(bytes: &[u8]) -> (r: bool)
    ensures
        r == bytes@.contains(0u8),
{
    let mut i: usize = 0;
    while i < bytes.len()
        invariant
            i <= bytes.len(),
            forall|w: int| 0 <= w < i ==> bytes@[w] != 0u8,
        decreases bytes.len() - i,
    {
        if bytes[i] == 0u8 {
            assert(bytes@[i as int] == 0u8);
            return true;
        }
        i += 1;
    }
    false
}

/// The listing of an untracked file with the given contents.
pub fn untracked_file(path: String, contents: &[u8]) -> (r: ChangedFile)
    ensures
        r@ == untracked_view(path@, contents@),
{
    let has_zero = contains_zero(contents);
    let ghost pv = path@;
    let mut file = ChangedFile {
        path,
        old_path: None,
        status: FileStatus::Untracked,
        additions: 0,
        deletions: 0,
        hunks: Vec::new(),
        binary: false,
    };
    assert(hunks_view(file.hunks@) =~= Seq::<HunkView>::empty());
    if has_zero {
        file.binary = true;
        return file;
    }
    let text = match utf8_text(contents) {
        Some(t) => t,
        None => {
            file.binary = true;
            return file;
        },
    };
    let lines = crate::text::lines_of_str(text.as_str());
    let ghost ls = lines_of(text@);
    file.additions = lines.len();
    if lines.len() > 0 {
        let mut rows: Vec<DiffRow> = Vec::new();
        let mut j: usize = 0;
        while j < lines.len()
            invariant
                j <= lines@.len(),
                lines@.len() == ls.len(),
                forall|q: int| 0 <= q < lines@.len() ==> #[trigger] lines@[q]@ == ls[q],
                rows_view(rows@) =~= untracked_rows(ls).take(j as int),
            decreases lines.len() - j,
        {
            let row = DiffRow {
                old_number: None,
                new_number: Some(j + 1),
                old_text: None,
                new_text: Some(string_of(&lines[j])),
                kind: DiffRowKind::Added,
            };
            let ghost before = rows@;
            rows.push(row);
            assert(rows_view(rows@) =~= rows_view(before).push(row@));
            assert(untracked_rows(ls).take(j as int + 1) =~= untracked_rows(ls).take(j as int).push(
                row@,
            ));
            j += 1;
        }
        assert(untracked_rows(ls).take(lines.len() as int) =~= untracked_rows(ls));
        let mut id = chars_of(file.path.as_str());
        append_str(&mut id, ":untracked");
        let mut header = chars_of("@@ -0,0 +1,");
        let mut count = decimal_chars(lines.len());
        header.append(&mut count);
        append_str(&mut header, " @@");
        let hunk = DiffHunk {
            id: HunkId(string_of(&id)),
            header: string_of(&header),
            kind: HunkKind::Untracked,
            rows,
            collapsed: false,
        };
        file.hunks.push(hunk);
        assert(hunks_view(file.hunks@) =~= seq![hunk@]);
    }
    file
}

/// The changed files of a working tree, from what Git printed for it.
pub open spec fn loaded_changes(
    mode: ChangeMode,
    view: DiffView,
    first: Seq<char>,
    second: Seq<char>,
    untracked: Seq<FileView>,
) -> Seq<FileView> {
    let listed = if view == DiffView::FullFile {
        parsed_diff(first, HunkKind::FullFile)
    } else if mode == ChangeMode::Uncommitted {
        merge_all(parsed_diff(first, HunkKind::Staged), parsed_diff(second, HunkKind::Unstaged))
    } else {
        parsed_diff(first, HunkKind::Combined)
    };
    sorted_by_path(merge_all(listed, untracked))
}

/// Whether every hunk header of a patch leaves room for its line numbers.
pub fn patch_line_numbers_fit(patch: &str) -> (r: bool)
    ensures
        r == headers_fit(lines_of(patch@)),
{
    let lines = crate::text::lines_of_str(patch);
    let ghost ls = lines_of(patch@);
    let n = lines.len();
    let mut i: usize = 0;
    while i < n
        invariant
            ls == lines_of(patch@),
            n == ls.len(),
            n == lines@.len(),
            forall|q: int| 0 <= q < n ==> #[trigger] lines@[q]@ == ls[q],
            i <= n,
            forall|q: int| 0 <= q < i ==> header_fits(#[trigger] ls[q], n as nat),
        decreases n - i,
    {
        if crate::text::starts_with_str(&lines[i], "@@ ") {
            match crate::patch::parse_hunk_header_chars(&lines[i]) {
                Some((o, p)) => {
                    if o > usize::MAX - n || p > usize::MAX - n {
                        assert(has_prefix(ls[i as int], "@@ "@));
                        assert(hunk_header_starts(ls[i as int]) == Some((o, p)));
                        assert(!header_fits(ls[i as int], n as nat));
                        assert(!headers_fit(ls));
                        return false;
                    }
                },
                None => {},
            }
        }
        assert(header_fits(ls[i as int], n as nat));
        i += 1;
    }
    true
}

/// The files changed in a working tree, in path order. For the hunk view of
/// uncommitted changes `first` is the staged patch and `second` the unstaged
/// one; otherwise `first` is the one patch (against `HEAD` or the merge base)
/// and `second` is not read. Untracked files are merged in last.
pub fn load_changes(
    mode: ChangeMode,
    view: DiffView,
    first: &str,
    second: &str,
    untracked: Vec<ChangedFile>,
) -> (r: Vec<ChangedFile>)
    requires
        headers_fit(lines_of(first@)),
        view == DiffView::Hunks && mode == ChangeMode::Uncommitted ==> headers_fit(
            lines_of(second@),
        ),
        first@.len() + second@.len() + total_additions(files_view(untracked@)) <= usize::MAX,
        first@.len() + second@.len() + total_deletions(files_view(untracked@)) <= usize::MAX,
    ensures
        files_view(r@) == loaded_changes(mode, view, first@, second@, files_view(untracked@)),
{
    let mut files = if view == DiffView::FullFile {
        parse_diff(first, HunkKind::FullFile)
    } else if mode == ChangeMode::Uncommitted {
        let mut staged = parse_diff(first, HunkKind::Staged);
        let unstaged = parse_diff(second, HunkKind::Unstaged);
        proof {
            lemma_merge_totals(files_view(staged@), files_view(unstaged@));
        }
        merge_files(&mut staged, unstaged);
        staged
    } else {
        parse_diff(first, HunkKind::Combined)
    };
    merge_files(&mut files, untracked);
    sort_by_path(files)
}

/// The files changed by a commit: its patch read with full-file or combined
/// hunks, in the order Git printed them.
pub fn load_commit_changes(view: DiffView, patch: &str) -> (r: Vec<ChangedFile>)
    requires
        headers_fit(lines_of(patch@)),
    ensures
        files_view(r@) == parsed_diff(
            patch@,
            if view == DiffView::FullFile {
                HunkKind::FullFile
            } else {
                HunkKind::Combined
            },
        ),
{
    let kind = if view == DiffView::FullFile {
        HunkKind::FullFile
    } else {
        HunkKind::Combined
    };
    parse_diff(patch, kind)
}


/// The pieces between `NUL` bytes read so far, empty ones left out, and the
/// piece being read.
pub open spec fn nul_pieces(output: Seq<u8>) -> (Seq<Seq<u8>>, Seq<u8>)
    decreases output.len(),
{
    if output.len() == 0 {
        (seq![], seq![])
    } else {
        let (done, current) = nul_pieces(output.drop_last());
        if output.last() == 0 {
            (
                if current.len() > 0 {
                    done.push(current)
                } else {
                    done
                },
                seq![],
            )
        } else {
            (done, current.push(output.last()))
        }
    }
}

/// The paths of `git ls-files --others --exclude-standard -z` output, as
/// bytes: the pieces between `NUL` bytes, empty pieces left out.
pub open spec fn nul_separated(output: Seq<u8>) -> Seq<Seq<u8>> {
    let (done, current) = nul_pieces(output);
    if current.len() > 0 {
        done.push(current)
    } else {
        done
    }
}

/// The untracked paths that `git ls-files -z` listed, as bytes.
pub fn untracked_paths(output: &[u8]) -> (r: Vec<Vec<u8>>)
    ensures
        r@.len() == nul_separated(output@).len(),
        forall|i: int| 0 <= i < r@.len() ==> #[trigger] r@[i]@ == nul_separated(output@)[i],
{
    let mut done: Vec<Vec<u8>> = Vec::new();
    let mut current: Vec<u8> = Vec::new();
    let mut i: usize = 0;
    while i < output.len()
        invariant
            i <= output@.len(),
            done@.len() == nul_pieces(output@.take(i as int)).0.len(),
            forall|k: int|
                0 <= k < done@.len() ==> #[trigger] done@[k]@ == nul_pieces(output@.take(i as int)).0[k],
            current@ == nul_pieces(output@.take(i as int)).1,
        decreases output.len() - i,
    {
        let ghost before = output@.take(i as int);
        assert(output@.take(i as int + 1).drop_last() =~= before);
        let b = output[i];
        if b == 0 {
            if current.len() > 0 {
                done.push(current);
            }
            current = Vec::new();
        } else {
            current.push(b);
        }
        i += 1;
        proof {
            let (d, cur) = nul_pieces(before);
            assert(nul_pieces(output@.take(i as int)) == (if b == 0 {
                (
                    if cur.len() > 0 {
                        d.push(cur)
                    } else {
                        d
                    },
                    Seq::<u8>::empty(),
                )
            } else {
                (d, cur.push(b))
            }));
        }
    }
    assert(output@.take(output@.len() as int) =~= output@);
    if current.len() > 0 {
        done.push(current);
    }
    done
}

/// Where the diff of a commit starts: its parent as `git rev-parse
/// <commit>^` printed it, or Git's empty tree for a root commit (when that
/// command failed).
pub open spec fn diff_start(parent: Option<Seq<char>>) -> Seq<char> {
    match parent {
        Some(p) => trim(p),
        None => "4b825dc642cb6eb9a060e54bf8d69288fbee4904"@,
    }
}

/// Where the diff of a commit starts.
pub fn commit_diff_start(parent: Option<&str>) -> (r: String)
    ensures
        r@ == diff_start(
            match parent {
                Some(p) => Some(p@),
                None => None,
            },
        ),
{
    match parent {
        Some(p) => crate::history::head_hash(p),
        None => owned("4b825dc642cb6eb9a060e54bf8d69288fbee4904"),
    }
}

} // verus!
