//! Texts the panels show: titles with the active filter, file status
//! letters, line numbers, directory names, and the scrollbar position.
use vstd::prelude::*;

use crate::model::FileStatus;
use crate::text::{chars_of, decimal, decimal_chars, owned, split_at_char, split_chars, string_of};

verus! {

/// A panel title with its filter: ` /filter/` after the title when a filter
/// is applied, ` //` while a search with an empty query is being typed.
pub open spec fn titled(title: Seq<char>, filter: Seq<char>, searching: bool) -> Seq<char> {
    if searching && filter.len() == 0 {
        title + " //"@
    } else if filter.len() == 0 {
        title
    } else {
        title + " /"@ + filter + "/"@
    }
}

/// A panel title with its filter.
pub fn panel_title(title: &str, filter: &str, searching: bool) -> (r: String)
    ensures
        r@ == titled(title@, filter@, searching),
{
    let mut out = chars_of(title);
    let f = chars_of(filter);
    if searching && f.len() == 0 {
        let mut tail = chars_of(" //");
        out.append(&mut tail);
    } else if f.len() > 0 {
        let mut open = chars_of(" /");
        let mut middle = chars_of(filter);
        let mut close = chars_of("/");
        out.append(&mut open);
        out.append(&mut middle);
        out.append(&mut close);
    }
    string_of(&out)
}

/// The count shown in a list title: the number shown, and the total as well
/// while a filter is applied.
pub open spec fn count_text(shown: nat, total: nat, filtered: bool) -> Seq<char> {
    if filtered {
        decimal(shown) + "/"@ + decimal(total)
    } else {
        decimal(shown)
    }
}

/// The count shown in a list title.
pub fn title_count(shown: usize, total: usize, filtered: bool) -> (r: String)
    ensures
        r@ == count_text(shown as nat, total as nat, filtered),
{
    let mut out = decimal_chars(shown);
    if filtered {
        let mut slash = chars_of("/");
        let mut rest = decimal_chars(total);
        out.append(&mut slash);
        out.append(&mut rest);
    }
    string_of(&out)
}

/// The title of the Worktrees panel: the worktrees shown, out of all of
/// them while a filter is applied, then the filter.
pub open spec fn worktree_title_text(shown: nat, total: nat, filter: Seq<char>, searching: bool) -> Seq<
    char,
> {
    titled("Worktrees ("@ + count_text(shown, total, filter.len() > 0) + ")"@, filter, searching)
}

/// The title of the Worktrees panel.
pub fn worktree_title(shown: usize, total: usize, filter: &str, searching: bool) -> (r: String)
    ensures
        r@ == worktree_title_text(shown as nat, total as nat, filter@, searching),
{
    let mut name = chars_of("Worktrees (");
    let count = title_count(shown, total, filter.unicode_len() > 0);
    let mut middle = chars_of(count.as_str());
    let mut close = chars_of(")");
    name.append(&mut middle);
    name.append(&mut close);
    let title = string_of(&name);
    panel_title(title.as_str(), filter, searching)
}

/// The title of the Files panel: all changed files, or the files shown out
/// of all of them while a filter is applied, then the filter.
pub open spec fn file_title_text(shown: nat, total: nat, filter: Seq<char>, searching: bool) -> Seq<char> {
    let count = if filter.len() > 0 {
        count_text(shown, total, true)
    } else {
        decimal(total)
    };
    titled("Files ("@ + count + ")"@, filter, searching)
}

/// The title of the Files panel.
pub fn file_title(shown: usize, total: usize, filter: &str, searching: bool) -> (r: String)
    ensures
        r@ == file_title_text(shown as nat, total as nat, filter@, searching),
{
    let filtered = filter.unicode_len() > 0;
    let count = if filtered {
        title_count(shown, total, true)
    } else {
        title_count(total, total, false)
    };
    let mut name = chars_of("Files (");
    let mut middle = chars_of(count.as_str());
    let mut close = chars_of(")");
    name.append(&mut middle);
    name.append(&mut close);
    let title = string_of(&name);
    panel_title(title.as_str(), filter, searching)
}

/// What the removal prompt says will happen: only the stale metadata goes
/// when the worktree's link is missing; otherwise the clean directory and
/// its metadata go.
pub open spec fn removal_notice_text(prune_only: bool) -> (Seq<char>, Seq<char>) {
    if prune_only {
        (
            "The worktree's .git link is missing. This removes only its stale Git metadata."@,
            "Any remaining directory and files are left untouched."@,
        )
    } else {
        (
            "This permanently deletes the clean worktree directory and its Git metadata."@,
            "The worktree directory will be deleted."@,
        )
    }
}

/// The two sentences of the removal prompt that depend on the removal.
pub fn removal_notice(prune_only: bool) -> (r: (&'static str, &'static str))
    ensures
        (r.0@, r.1@) == removal_notice_text(prune_only),
{
    if prune_only {
        (
            "The worktree's .git link is missing. This removes only its stale Git metadata.",
            "Any remaining directory and files are left untouched.",
        )
    } else {
        (
            "This permanently deletes the clean worktree directory and its Git metadata.",
            "The worktree directory will be deleted.",
        )
    }
}

/// The status message for a worktree whose directory is gone: Git's reason
/// for marking it prunable, or that the directory does not exist.
pub open spec fn unavailable_text(reason: Option<Seq<char>>) -> Seq<char> {
    let why = match reason {
        Some(r) => if r.len() > 0 {
            r
        } else {
            "working directory does not exist"@
        },
        None => "working directory does not exist"@,
    };
    "Unavailable worktree: "@ + why + ". Press d in the Worktrees pane to clean it up"@
}

/// The status message for an unavailable worktree.
pub fn unavailable_message(prunable_reason: Option<&str>) -> (r: String)
    ensures
        r@ == unavailable_text(
            match prunable_reason {
                Some(t) => Some(t@),
                None => None,
            },
        ),
{
    let mut out = chars_of("Unavailable worktree: ");
    let mut why = match prunable_reason {
        Some(t) => if t.unicode_len() > 0 {
            chars_of(t)
        } else {
            chars_of("working directory does not exist")
        },
        None => chars_of("working directory does not exist"),
    };
    let mut tail = chars_of(". Press d in the Worktrees pane to clean it up");
    out.append(&mut why);
    out.append(&mut tail);
    string_of(&out)
}

/// The status message after a cleanup: what was removed, and where.
pub open spec fn removal_done_text(prune_only: bool, path: Seq<char>) -> Seq<char> {
    (if prune_only {
        "Pruned stale worktree metadata: "@
    } else {
        "Removed worktree: "@
    }) + path
}

/// The status message after a cleanup.
pub fn removal_done_message(prune_only: bool, path: &str) -> (r: String)
    ensures
        r@ == removal_done_text(prune_only, path@),
{
    let mut out = if prune_only {
        chars_of("Pruned stale worktree metadata: ")
    } else {
        chars_of("Removed worktree: ")
    };
    let mut rest = chars_of(path);
    out.append(&mut rest);
    string_of(&out)
}

/// The letter shown for a file's status.
pub open spec fn letter_of(status: FileStatus) -> Seq<char> {
    match status {
        FileStatus::Added => "A"@,
        FileStatus::Deleted => "D"@,
        FileStatus::Modified => "M"@,
        FileStatus::Renamed => "R"@,
        FileStatus::Untracked => "?"@,
        FileStatus::Conflicted => "U"@,
    }
}

/// The letter shown for a file's status.
pub fn status_letter(status: FileStatus) -> (r: &'static str)
    ensures
        r@ == letter_of(status),
{
    match status {
        FileStatus::Added => "A",
        FileStatus::Deleted => "D",
        FileStatus::Modified => "M",
        FileStatus::Renamed => "R",
        FileStatus::Untracked => "?",
        FileStatus::Conflicted => "U",
    }
}

/// A line number in decimal; nothing for a missing line.
pub fn line_number(number: Option<usize>) -> (r: String)
    ensures
        r@ == (match number {
            Some(n) => decimal(n as nat),
            None => Seq::<char>::empty(),
        }),
{
    match number {
        Some(n) => string_of(&decimal_chars(n)),
        None => String::new(),
    }
}

/// The components of a `/`-separated path that name something: empty
/// pieces and `.` are left out.
pub open spec fn named_pieces(pieces: Seq<Seq<char>>) -> Seq<Seq<char>>
    decreases pieces.len(),
{
    if pieces.len() == 0 {
        seq![]
    } else {
        let earlier = named_pieces(pieces.drop_last());
        let p = pieces.last();
        if p.len() == 0 || p == "."@ {
            earlier
        } else {
            earlier.push(p)
        }
    }
}

/// The last component of a path, unless the path ends in `..` or has none.
pub open spec fn file_name_of(path: Seq<char>) -> Option<Seq<char>> {
    let named = named_pieces(split_at_char(path, '/'));
    if named.len() > 0 && named.last() != ".."@ {
        Some(named.last())
    } else {
        None
    }
}

/// The name a worktree is listed by: the last component of its path, or the
/// whole path when it has none.
pub open spec fn directory_label(path: Seq<char>) -> Seq<char> {
    match file_name_of(path) {
        Some(name) => name,
        None => path,
    }
}

/// The name a worktree is listed by.
pub fn directory_name(path: &str) -> (r: String)
    ensures
        r@ == directory_label(path@),
{
    let v = chars_of(path);
    let pieces = split_chars(&v, '/');
    let ghost ps = split_at_char(path@, '/');
    let mut last: Option<usize> = None;
    let mut i: usize = 0;
    let ghost mut named: Seq<Seq<char>> = seq![];
    assert(ps.take(0) =~= Seq::<Seq<char>>::empty());
    while i < pieces.len()
        invariant
            i <= pieces@.len(),
            pieces@.len() == ps.len(),
            v@ == path@,
            forall|q: int| 0 <= q < pieces@.len() ==> #[trigger] pieces@[q]@ == ps[q],
            named == named_pieces(ps.take(i as int)),
            last matches Some(k) ==> k < i && named.len() > 0 && named.last() == ps[k as int],
            last is None ==> named.len() == 0,
        decreases pieces.len() - i,
    {
        assert(ps.take(i as int + 1).drop_last() =~= ps.take(i as int));
        assert(ps.take(i as int + 1).last() == ps[i as int]);
        let piece = &pieces[i];
        let is_dot = crate::text::eq_str(piece, ".");
        if piece.len() > 0 && !is_dot {
            last = Some(i);
            proof {
                named = named.push(ps[i as int]);
            }
        }
        i += 1;
    }
    assert(ps.take(pieces@.len() as int) =~= ps);
    match last {
        Some(k) => {
            if crate::text::eq_str(&pieces[k], "..") {
                string_of(&v)
            } else {
                string_of(&pieces[k])
            }
        },
        None => string_of(&v),
    }
}

/// Where the scrollbar thumb sits: the offset, limited to the last offset
/// that still fills the viewport, scaled to the content's last position.
pub open spec fn scroll_thumb(offset: usize, content_length: usize, viewport_length: usize) -> nat {
    let max_offset: nat = if content_length >= viewport_length {
        (content_length - viewport_length) as nat
    } else {
        0
    };
    let max_position: nat = if content_length >= 1 {
        (content_length - 1) as nat
    } else {
        0
    };
    let at: nat = if offset < max_offset {
        offset as nat
    } else {
        max_offset
    };
    if max_offset == 0 || at * max_position > usize::MAX {
        0
    } else {
        at * max_position / max_offset
    }
}

/// Where the scrollbar thumb sits; 0 when nothing scrolls or the scaling
/// would overflow.
pub fn scrollbar_position(offset: usize, content_length: usize, viewport_length: usize) -> (r: usize)
    ensures
        r == scroll_thumb(offset, content_length, viewport_length),
{
    let max_offset = content_length.saturating_sub(viewport_length);
    let max_position = content_length.saturating_sub(1);
    let at = if offset < max_offset {
        offset
    } else {
        max_offset
    };
    match at.checked_mul(max_position) {
        Some(product) => match product.checked_div(max_offset) {
            Some(position) => position,
            None => 0,
        },
        None => 0,
    }
}


fn concat(parts: &Vec<&str>) -> (r: String)
    ensures
        r@ == concat_all(parts@.map_values(|p: &str| p@)),
{
    let ghost views = parts@.map_values(|p: &str| p@);
    let mut out: Vec<char> = Vec::new();
    let mut i: usize = 0;
    assert(views.take(0) =~= Seq::<Seq<char>>::empty());
    while i < parts.len()
        invariant
            i <= parts@.len(),
            views == parts@.map_values(|p: &str| p@),
            out@ == concat_all(views.take(i as int)),
        decreases parts.len() - i,
    {
        let mut more = chars_of(parts[i]);
        assert(views.take(i as int + 1).drop_last() =~= views.take(i as int));
        out.append(&mut more);
        i += 1;
    }
    assert(views.take(parts@.len() as int) =~= views);
    string_of(&out)
}

/// Texts joined end to end.
pub open spec fn concat_all(parts: Seq<Seq<char>>) -> Seq<char>
    decreases parts.len(),
{
    if parts.len() == 0 {
        seq![]
    } else {
        concat_all(parts.drop_last()) + parts.last()
    }
}

/// The mode badge of the header.
pub open spec fn mode_badge(commit_selected: bool, mode: crate::model::ChangeMode) -> Seq<char> {
    match (commit_selected, mode) {
        (true, crate::model::ChangeMode::Uncommitted) => " COMMIT "@,
        (true, crate::model::ChangeMode::Branch) => " COMMIT RANGE "@,
        (false, crate::model::ChangeMode::Uncommitted) => " UNCOMMITTED "@,
        (false, crate::model::ChangeMode::Branch) => " BRANCH "@,
    }
}

/// What the header says is being compared.
pub open spec fn mode_detail(commit_selected: bool, mode: crate::model::ChangeMode, base: Seq<char>) -> Seq<
    char,
> {
    match (commit_selected, mode) {
        (true, crate::model::ChangeMode::Uncommitted) => "selected commit compared with its parent"@,
        (true, crate::model::ChangeMode::Branch) => "selected commit since divergence from "@ + base,
        (false, crate::model::ChangeMode::Uncommitted) => "staged + unstaged + untracked"@,
        (false, crate::model::ChangeMode::Branch) => "since divergence from "@ + base,
    }
}

/// The header's mode badge and description of the comparison.
pub fn header_text(commit_selected: bool, mode: crate::model::ChangeMode, base: &str) -> (r: (
    &'static str,
    String,
))
    ensures
        r.0@ == mode_badge(commit_selected, mode),
        r.1@ == mode_detail(commit_selected, mode, base@),
{
    let badge = match (commit_selected, mode) {
        (true, crate::model::ChangeMode::Uncommitted) => " COMMIT ",
        (true, crate::model::ChangeMode::Branch) => " COMMIT RANGE ",
        (false, crate::model::ChangeMode::Uncommitted) => " UNCOMMITTED ",
        (false, crate::model::ChangeMode::Branch) => " BRANCH ",
    };
    let detail = match (commit_selected, mode) {
        (true, crate::model::ChangeMode::Uncommitted) => owned(
            "selected commit compared with its parent",
        ),
        (true, crate::model::ChangeMode::Branch) => {
            let parts = vec!["selected commit since divergence from ", base];
            let r = concat(&parts);
            proof {
                reveal_with_fuel(concat_all, 3);
                assert(parts@.map_values(|p: &str| p@) =~= seq![
                    "selected commit since divergence from "@,
                    base@,
                ]);
                assert(seq!["selected commit since divergence from "@, base@].drop_last() =~= seq![
                    "selected commit since divergence from "@,
                ]);
                assert(seq!["selected commit since divergence from "@].drop_last() =~= Seq::<
                    Seq<char>,
                >::empty());
            }
            r
        },
        (false, crate::model::ChangeMode::Uncommitted) => owned("staged + unstaged + untracked"),
        (false, crate::model::ChangeMode::Branch) => {
            let parts = vec!["since divergence from ", base];
            let r = concat(&parts);
            proof {
                reveal_with_fuel(concat_all, 3);
                assert(parts@.map_values(|p: &str| p@) =~= seq!["since divergence from "@, base@]);
                assert(seq!["since divergence from "@, base@].drop_last() =~= seq![
                    "since divergence from "@,
                ]);
                assert(seq!["since divergence from "@].drop_last() =~= Seq::<Seq<char>>::empty());
            }
            r
        },
    };
    (badge, detail)
}

/// The label of a status message.
pub open spec fn status_label_of(kind: crate::navigation::StatusKind) -> Seq<char> {
    match kind {
        crate::navigation::StatusKind::Info => " Success: "@,
        crate::navigation::StatusKind::Error => " Error: "@,
    }
}

/// The label of a status message.
pub fn status_label(kind: crate::navigation::StatusKind) -> (r: &'static str)
    ensures
        r@ == status_label_of(kind),
{
    match kind {
        crate::navigation::StatusKind::Info => " Success: ",
        crate::navigation::StatusKind::Error => " Error: ",
    }
}

/// The keyboard shortcuts the footer lists, as key and action: panes,
/// navigation, mode, expansion (naming what Space does next), layout and
/// refresh; then the Diff keys on the Diff panel, history and cleanup on the
/// Worktrees panel, history on the Files panel; then help and quit.
pub open spec fn shortcuts(focus: crate::navigation::Focus, expanded: bool) -> Seq<(Seq<char>, Seq<char>)> {
    let common = seq![
        ("←/→"@, "panes"@),
        ("↑/↓"@, "navigate"@),
        ("Tab"@, "mode"@),
        ("Space"@, if expanded {
            "minimize"@
        } else {
            "expand"@
        }),
        ("t"@, "layout"@),
        ("r"@, "refresh"@),
    ];
    let panel = match focus {
        crate::navigation::Focus::Diff => seq![
            ("Enter"@, "fold"@),
            ("v"@, "view"@),
            ("s"@, "split/unified"@),
            ("w"@, "wrap"@),
            ("c"@, "copy location"@),
        ],
        crate::navigation::Focus::Worktrees => seq![("h"@, "history"@), ("d"@, "clean worktree"@)],
        crate::navigation::Focus::Files => seq![("h"@, "history"@)],
    };
    common + panel + seq![("?"@, "help"@), ("q"@, "quit"@)]
}

/// The keyboard shortcuts the footer lists, as key and action.
pub fn navigation_shortcuts(focus: crate::navigation::Focus, expanded: bool) -> (r: Vec<
    (&'static str, &'static str),
>)
    ensures
        r@.map_values(|p: (&'static str, &'static str)| (p.0@, p.1@)) == shortcuts(focus, expanded),
{
    let mut r: Vec<(&'static str, &'static str)> = vec![
        ("←/→", "panes"),
        ("↑/↓", "navigate"),
        ("Tab", "mode"),
        ("Space", if expanded {
            "minimize"
        } else {
            "expand"
        }),
        ("t", "layout"),
        ("r", "refresh"),
    ];
    match focus {
        crate::navigation::Focus::Diff => {
            r.push(("Enter", "fold"));
            r.push(("v", "view"));
            r.push(("s", "split/unified"));
            r.push(("w", "wrap"));
            r.push(("c", "copy location"));
        },
        crate::navigation::Focus::Worktrees => {
            r.push(("h", "history"));
            r.push(("d", "clean worktree"));
        },
        crate::navigation::Focus::Files => {
            r.push(("h", "history"));
        },
    }
    r.push(("?", "help"));
    r.push(("q", "quit"));
    assert(r@.map_values(|p: (&'static str, &'static str)| (p.0@, p.1@)) =~= shortcuts(
        focus,
        expanded,
    ));
    r
}


/// The title of the Diff panel: the view, the layout in use (marked `AUTO`
/// when a one-sided file overrides the preference), `WRAP` when wrapping,
/// and the file's path.
pub open spec fn diff_title_text(
    path: Option<Seq<char>>,
    status: crate::model::FileStatus,
    view: crate::model::DiffView,
    preferred: crate::model::DiffLayout,
    line_wrap: bool,
) -> Seq<char> {
    let layout = match path {
        Some(_) => crate::geometry::layout_for(status, preferred),
        None => preferred,
    };
    let wrap: Seq<char> = if line_wrap {
        ", WRAP"@
    } else {
        seq![]
    };
    match path {
        Some(p) => "Diff ["@ + view.label_text() + ", "@ + layout.label_text() + (if layout
            != preferred {
            " AUTO"@
        } else {
            seq![]
        }) + wrap + "] - "@ + p,
        None => "Diff ["@ + view.label_text() + ", "@ + layout.label_text() + wrap + "]"@,
    }
}

fn push_str(v: &mut Vec<char>, s: &str)
    ensures
        final(v)@ == old(v)@ + s@,
{
    let mut more = chars_of(s);
    v.append(&mut more);
}

/// The title of the Diff panel for the selected file, if any.
pub fn diff_title(
    file: Option<&crate::model::ChangedFile>,
    view: crate::model::DiffView,
    preferred: crate::model::DiffLayout,
    line_wrap: bool,
) -> (r: String)
    ensures
        r@ == diff_title_text(
            match file {
                Some(f) => Some(f.path@),
                None => None,
            },
            match file {
                Some(f) => f.status,
                None => crate::model::FileStatus::Modified,
            },
            view,
            preferred,
            line_wrap,
        ),
{
    let layout = match file {
        Some(f) => crate::geometry::effective_layout(f, preferred),
        None => preferred,
    };
    let mut out: Vec<char> = Vec::new();
    push_str(&mut out, "Diff [");
    push_str(&mut out, view.label());
    push_str(&mut out, ", ");
    push_str(&mut out, layout.label());
    match file {
        Some(f) => {
            if layout != preferred {
                push_str(&mut out, " AUTO");
            }
            if line_wrap {
                push_str(&mut out, ", WRAP");
            }
            push_str(&mut out, "] - ");
            push_str(&mut out, f.path.as_str());
        },
        None => {
            if line_wrap {
                push_str(&mut out, ", WRAP");
            }
            push_str(&mut out, "]");
        },
    }
    assert(out@ =~= diff_title_text(
        match file {
            Some(f) => Some(f.path@),
            None => None,
        },
        match file {
            Some(f) => f.status,
            None => crate::model::FileStatus::Modified,
        },
        view,
        preferred,
        line_wrap,
    ));
    string_of(&out)
}

/// A Diff title with the search being typed: the query between slashes,
/// then the current and total match count when the query is not empty.
pub open spec fn searched_title(title: Seq<char>, query: Seq<char>, position: Option<(usize, usize)>) -> Seq<
    char,
> {
    title + " /"@ + query + "/"@ + match position {
        Some((current, total)) => " ("@ + decimal(current as nat) + "/"@ + decimal(total as nat)
            + ")"@,
        None => seq![],
    }
}

/// A Diff title with the search being typed.
pub fn diff_search_title(title: &str, query: &str, position: Option<(usize, usize)>) -> (r: String)
    ensures
        r@ == searched_title(title@, query@, position),
{
    let mut out = chars_of(title);
    push_str(&mut out, " /");
    push_str(&mut out, query);
    push_str(&mut out, "/");
    match position {
        Some((current, total)) => {
            push_str(&mut out, " (");
            let mut a = decimal_chars(current);
            out.append(&mut a);
            push_str(&mut out, "/");
            let mut b = decimal_chars(total);
            out.append(&mut b);
            push_str(&mut out, ")");
        },
        None => {},
    }
    assert(out@ =~= searched_title(title@, query@, position));
    string_of(&out)
}

/// The search prompt of the footer: the panel searched, the query, and the
/// keys that apply.
pub open spec fn search_prompt_text(focus: crate::navigation::Focus, query: Seq<char>) -> (
    Seq<char>,
    Seq<char>,
    Seq<char>,
) {
    let panel = match focus {
        crate::navigation::Focus::Worktrees => "worktrees"@,
        crate::navigation::Focus::Files => "files"@,
        crate::navigation::Focus::Diff => "diff"@,
    };
    (
        " Search "@ + panel + ": "@,
        "/"@ + query,
        if focus == crate::navigation::Focus::Diff {
            "  ↑/↓/Enter next  Esc cancel"@
        } else {
            "  Enter apply  Esc cancel"@
        },
    )
}

/// The search prompt of the footer.
pub fn search_prompt(focus: crate::navigation::Focus, query: &str) -> (r: (String, String, &'static str))
    ensures
        (r.0@, r.1@, r.2@) == search_prompt_text(focus, query@),
{
    let panel = match focus {
        crate::navigation::Focus::Worktrees => "worktrees",
        crate::navigation::Focus::Files => "files",
        crate::navigation::Focus::Diff => "diff",
    };
    let mut label = chars_of(" Search ");
    push_str(&mut label, panel);
    push_str(&mut label, ": ");
    let mut shown = chars_of("/");
    push_str(&mut shown, query);
    let hint = if focus == crate::navigation::Focus::Diff {
        "  ↑/↓/Enter next  Esc cancel"
    } else {
        "  Enter apply  Esc cancel"
    };
    (string_of(&label), string_of(&shown), hint)
}

/// The two lines a worktree is listed with: a marker for the current one
/// and its name with `*` when dirty; then `MISSING` or `LOCKED` when so, and
/// its branch and head.
pub open spec fn worktree_lines_text(w: crate::model::Worktree) -> (Seq<char>, Seq<char>, Seq<char>) {
    (
        (if w.is_current {
            "●"@
        } else {
            " "@
        }) + " "@ + directory_label(w.path@) + (if w.dirty {
            "*"@
        } else {
            seq![]
        }),
        if w.missing() {
            "MISSING "@
        } else if w.locked_reason is Some {
            "LOCKED "@
        } else {
            seq![]
        },
        w.branch@ + " @ "@ + w.head@,
    )
}

/// The lines a worktree is listed with: its title, its state, and its branch
/// and head.
pub fn worktree_lines(w: &crate::model::Worktree) -> (r: (String, &'static str, String))
    ensures
        (r.0@, r.1@, r.2@) == worktree_lines_text(*w),
{
    let mut title = chars_of(if w.is_current {
        "●"
    } else {
        " "
    });
    push_str(&mut title, " ");
    let name = directory_name(w.path.as_str());
    push_str(&mut title, name.as_str());
    if w.dirty {
        push_str(&mut title, "*");
    }
    let state = if w.is_missing() {
        "MISSING "
    } else if w.locked_reason.is_some() {
        "LOCKED "
    } else {
        ""
    };
    proof {
        reveal_strlit("");
    }
    let mut detail = chars_of(w.branch.as_str());
    push_str(&mut detail, " @ ");
    push_str(&mut detail, w.head.as_str());
    proof {
        reveal_strlit("*");
        assert(title@ =~= worktree_lines_text(*w).0);
        assert(state@ =~= worktree_lines_text(*w).1);
    }
    (string_of(&title), state, string_of(&detail))
}

} // verus!
