//! The colours that carry meaning: a file's colour in the Files panel, the
//! colours of the two sides of a diff line, and the badge of each hunk kind.
use vstd::prelude::*;

use crate::model::{ChangeMode, ChangedFile, DiffRowKind, FileStatus, HunkKind, Worktree};
use crate::navigation::StatusKind;

verus! {

/// A terminal colour; `Plain` is the terminal's own.
#[derive(Clone, Copy, Debug, PartialEq, Eq, Structural)]
pub enum Hue {
    Plain,
    Black,
    White,
    Gray,
    DarkGray,
    Red,
    LightRed,
    Green,
    LightGreen,
    Yellow,
    Orange,
    Blue,
    Magenta,
    Cyan,
}

/// The colour of a file: in Branch mode by the shape of its change (added
/// and deleted lines orange, only added green, only deleted red, neither
/// gray); otherwise by its status.
pub open spec fn file_hue_of(additions: usize, deletions: usize, status: FileStatus, mode: ChangeMode) -> Hue {
    if mode == ChangeMode::Branch {
        if additions > 0 && deletions > 0 {
            Hue::Orange
        } else if additions > 0 {
            Hue::Green
        } else if deletions > 0 {
            Hue::Red
        } else {
            Hue::Gray
        }
    } else {
        match status {
            FileStatus::Added | FileStatus::Untracked => Hue::Green,
            FileStatus::Deleted => Hue::Red,
            FileStatus::Conflicted => Hue::LightRed,
            FileStatus::Modified | FileStatus::Renamed => Hue::Yellow,
        }
    }
}

/// The colour a file is listed in.
pub fn file_hue(file: &ChangedFile, mode: ChangeMode) -> (r: Hue)
    ensures
        r == file_hue_of(file.additions, file.deletions, file.status, mode),
{
    if mode == ChangeMode::Branch {
        if file.additions > 0 && file.deletions > 0 {
            Hue::Orange
        } else if file.additions > 0 {
            Hue::Green
        } else if file.deletions > 0 {
            Hue::Red
        } else {
            Hue::Gray
        }
    } else {
        match file.status {
            FileStatus::Added | FileStatus::Untracked => Hue::Green,
            FileStatus::Deleted => Hue::Red,
            FileStatus::Conflicted => Hue::LightRed,
            FileStatus::Modified | FileStatus::Renamed => Hue::Yellow,
        }
    }
}

/// The colours of the old and new side of a diff line: context gray on both
/// sides; deleted text red and added text green, in lighter shades for a
/// staged hunk of the uncommitted changes; the missing side plain.
pub open spec fn line_hues_of(kind: DiffRowKind, mode: ChangeMode, hunk: HunkKind) -> (Hue, Hue) {
    let staged = mode == ChangeMode::Uncommitted && hunk == HunkKind::Staged;
    let deleted = if staged {
        Hue::LightRed
    } else {
        Hue::Red
    };
    let added = if staged {
        Hue::LightGreen
    } else {
        Hue::Green
    };
    match kind {
        DiffRowKind::Context => (Hue::Gray, Hue::Gray),
        DiffRowKind::Added => (Hue::Plain, added),
        DiffRowKind::Deleted => (deleted, Hue::Plain),
        DiffRowKind::Modified => (deleted, added),
    }
}

/// The colours of the two sides of a diff line.
pub fn line_hues(kind: DiffRowKind, mode: ChangeMode, hunk: HunkKind) -> (r: (Hue, Hue))
    ensures
        r == line_hues_of(kind, mode, hunk),
{
    let staged = mode == ChangeMode::Uncommitted && hunk == HunkKind::Staged;
    let deleted = if staged {
        Hue::LightRed
    } else {
        Hue::Red
    };
    let added = if staged {
        Hue::LightGreen
    } else {
        Hue::Green
    };
    match kind {
        DiffRowKind::Context => (Hue::Gray, Hue::Gray),
        DiffRowKind::Added => (Hue::Plain, added),
        DiffRowKind::Deleted => (deleted, Hue::Plain),
        DiffRowKind::Modified => (deleted, added),
    }
}

/// The text and background colours of a hunk's badge.
pub open spec fn badge_hues_of(kind: HunkKind) -> (Hue, Hue) {
    match kind {
        HunkKind::Staged => (Hue::Black, Hue::LightGreen),
        HunkKind::Unstaged => (Hue::Black, Hue::Yellow),
        HunkKind::Combined => (Hue::White, Hue::Blue),
        HunkKind::FullFile => (Hue::Black, Hue::Cyan),
        HunkKind::Untracked => (Hue::Black, Hue::Cyan),
    }
}

/// The colours of a hunk's badge.
pub fn badge_hues(kind: HunkKind) -> (r: (Hue, Hue))
    ensures
        r == badge_hues_of(kind),
{
    match kind {
        HunkKind::Staged => (Hue::Black, Hue::LightGreen),
        HunkKind::Unstaged => (Hue::Black, Hue::Yellow),
        HunkKind::Combined => (Hue::White, Hue::Blue),
        HunkKind::FullFile => (Hue::Black, Hue::Cyan),
        HunkKind::Untracked => (Hue::Black, Hue::Cyan),
    }
}

/// The colours of a status message: the label's text and background, then
/// the message's text; green for success, red for an error.
pub open spec fn status_hues_of(kind: StatusKind) -> (Hue, Hue, Hue) {
    match kind {
        StatusKind::Info => (Hue::Black, Hue::Green, Hue::LightGreen),
        StatusKind::Error => (Hue::White, Hue::Red, Hue::LightRed),
    }
}

/// The colours of a status message.
pub fn status_hues(kind: StatusKind) -> (r: (Hue, Hue, Hue))
    ensures
        r == status_hues_of(kind),
{
    match kind {
        StatusKind::Info => (Hue::Black, Hue::Green, Hue::LightGreen),
        StatusKind::Error => (Hue::White, Hue::Red, Hue::LightRed),
    }
}

/// How the state line of a worktree is drawn, as a colour and whether it is
/// bold: a missing worktree in bold light red, a locked one in bold yellow,
/// any other plainly.
pub fn worktree_state_tone(worktree: &Worktree) -> (r: (Hue, bool))
    ensures
        r == (if worktree.missing() {
            (Hue::LightRed, true)
        } else if worktree.locked_reason is Some {
            (Hue::Yellow, true)
        } else {
            (Hue::Plain, false)
        }),
{
    if worktree.is_missing() {
        (Hue::LightRed, true)
    } else if worktree.locked_reason.is_some() {
        (Hue::Yellow, true)
    } else {
        (Hue::Plain, false)
    }
}

/// What the Diff panel shows in place of rows, and in which colour: without
/// a selected file, that the changes could not be loaded (after an error) or
/// that nothing changed; for a binary file, that its diff is not shown; for
/// a file without hunks, that nothing textual changed. None when the file
/// has rows to show.
pub fn diff_placeholder(file: Option<&ChangedFile>, failed: bool) -> (r: Option<(&'static str, Hue)>)
    ensures
        match file {
            None => r matches Some((text, hue)) && hue == Hue::DarkGray && text@ == (if failed {
                "Unable to load changes"@
            } else {
                "No changed files"@
            }),
            Some(f) => if f.binary {
                r matches Some((text, hue)) && hue == Hue::Yellow && text@
                    == "Binary file - diff is not displayed"@
            } else if f.hunks@.len() == 0 {
                r matches Some((text, hue)) && hue == Hue::DarkGray && text@ == "No textual changes"@
            } else {
                r is None
            },
        },
{
    match file {
        None => if failed {
            Some(("Unable to load changes", Hue::DarkGray))
        } else {
            Some(("No changed files", Hue::DarkGray))
        },
        Some(f) => if f.binary {
            Some(("Binary file - diff is not displayed", Hue::Yellow))
        } else if f.hunks.len() == 0 {
            Some(("No textual changes", Hue::DarkGray))
        } else {
            None
        },
    }
}

} // verus!
