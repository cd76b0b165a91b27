//! Worktrees: reading `git worktree list --porcelain`, assembling the list the
//! navigator shows, and deciding whether a worktree may be cleaned up.
use vstd::prelude::*;

use crate::model::{opt_text, Worktree};
use crate::navigation::DeleteConfirmation;
use crate::text::{
    chars_of, has_prefix, lines_of, lines_of_str, owned, slice_chars, string_of, strip_str, trim,
    trim_chars,
};

verus! {

/// One record of `git worktree list --porcelain` output.
#[derive(Clone, Debug, PartialEq, Eq)]
pub struct WorktreeRecord {
    pub path: String,
    pub branch: Option<String>,
    pub head: Option<String>,
    pub prunable_reason: Option<String>,
    pub locked_reason: Option<String>,
}

/// A record being read, as values.
pub struct PendingRecord {
    pub path: Option<Seq<char>>,
    pub branch: Option<Seq<char>>,
    pub head: Option<Seq<char>>,
    pub prunable: Option<Seq<char>>,
    pub locked: Option<Seq<char>>,
}

/// A finished record, as values.
pub struct RecordView {
    pub path: Seq<char>,
    pub branch: Option<Seq<char>>,
    pub head: Option<Seq<char>>,
    pub prunable: Option<Seq<char>>,
    pub locked: Option<Seq<char>>,
}

impl View for WorktreeRecord {
    type V = RecordView;

    open spec fn view(&self) -> RecordView {
        RecordView {
            path: self.path@,
            branch: opt_text(self.branch),
            head: opt_text(self.head),
            prunable: opt_text(self.prunable_reason),
            locked: opt_text(self.locked_reason),
        }
    }
}

/// The views of a list of records.
pub open spec fn records_view(v: Seq<WorktreeRecord>) -> Seq<RecordView> {
    v.map_values(|r: WorktreeRecord| r@)
}

/// A record with nothing read yet.
pub open spec fn empty_record() -> PendingRecord {
    PendingRecord { path: None, branch: None, head: None, prunable: None, locked: None }
}

/// The branch a `branch` line names: without `refs/heads/` when it has it.
pub open spec fn branch_name(value: Seq<char>) -> Seq<char> {
    if has_prefix(value, "refs/heads/"@) {
        value.skip("refs/heads/"@.len() as int)
    } else {
        value
    }
}

/// How one line changes the records read so far: an empty line ends the
/// record (kept when it has a path); `worktree `, `HEAD ` (first eight
/// characters), `branch `, `prunable` and `locked` lines set a field; other
/// lines change nothing.
pub open spec fn record_step(done: Seq<RecordView>, cur: PendingRecord, line: Seq<char>) -> (
    Seq<RecordView>,
    PendingRecord,
) {
    if line.len() == 0 {
        match cur.path {
            Some(p) => (
                done.push(
                    RecordView {
                        path: p,
                        branch: cur.branch,
                        head: cur.head,
                        prunable: cur.prunable,
                        locked: cur.locked,
                    },
                ),
                empty_record(),
            ),
            None => (done, empty_record()),
        }
    } else if has_prefix(line, "worktree "@) {
        (done, PendingRecord { path: Some(line.skip(9)), ..cur })
    } else if has_prefix(line, "HEAD "@) {
        let value = line.skip(5);
        (done, PendingRecord { head: Some(if value.len() > 8 { value.take(8) } else { value }), ..cur })
    } else if has_prefix(line, "branch "@) {
        (done, PendingRecord { branch: Some(branch_name(line.skip(7))), ..cur })
    } else if has_prefix(line, "prunable"@) {
        (done, PendingRecord { prunable: Some(trim(line.skip(8))), ..cur })
    } else if has_prefix(line, "locked"@) {
        (done, PendingRecord { locked: Some(trim(line.skip(6))), ..cur })
    } else {
        (done, cur)
    }
}

/// The records and the record being read after the given lines.
pub open spec fn records_after(lines: Seq<Seq<char>>) -> (Seq<RecordView>, PendingRecord)
    decreases lines.len(),
{
    if lines.len() == 0 {
        (seq![], empty_record())
    } else {
        let (done, cur) = records_after(lines.drop_last());
        record_step(done, cur, lines.last())
    }
}

/// The records of `git worktree list --porcelain` output; the output ends
/// the last record as an empty line would.
pub open spec fn porcelain_records(output: Seq<char>) -> Seq<RecordView> {
    records_after(lines_of(output).push(seq![])).0
}

/// Reads the records of `git worktree list --porcelain` output.
pub fn worktree_records(output: &str) -> (r: Vec<WorktreeRecord>)
    ensures
        records_view(r@) == porcelain_records(output@),
{
    let mut lines = lines_of_str(output);
    let ghost ls = lines_of(output@).push(seq![]);
    lines.push(Vec::new());
    let mut done: Vec<WorktreeRecord> = Vec::new();
    let mut path: Option<String> = None;
    let mut branch: Option<String> = None;
    let mut head: Option<String> = None;
    let mut prunable: Option<String> = None;
    let mut locked: Option<String> = None;
    let mut i: usize = 0;
    assert(ls.take(0) =~= Seq::<Seq<char>>::empty());
    assert(records_view(done@) =~= Seq::<RecordView>::empty());
    while i < lines.len()
        invariant
            i <= lines@.len(),
            lines@.len() == ls.len(),
            forall|q: int| 0 <= q < lines@.len() ==> #[trigger] lines@[q]@ == ls[q],
            records_after(ls.take(i as int)).0 == records_view(done@),
            records_after(ls.take(i as int)).1 == (PendingRecord {
                path: opt_text(path),
                branch: opt_text(branch),
                head: opt_text(head),
                prunable: opt_text(prunable),
                locked: opt_text(locked),
            }),
        decreases lines.len() - i,
    {
        assert(ls.take(i as int + 1).drop_last() =~= ls.take(i as int));
        let line = &lines[i];
        assert(ls.take(i as int + 1).last() == line@);
        if line.len() == 0 {
            let ghost before = records_view(done@);
            match path {
                Some(p) => {
                    let record = WorktreeRecord {
                        path: p,
                        branch: branch,
                        head: head,
                        prunable_reason: prunable,
                        locked_reason: locked,
                    };
                    done.push(record);
                    assert(records_view(done@) =~= before.push(record@));
                },
                None => {},
            }
            path = None;
            branch = None;
            head = None;
            prunable = None;
            locked = None;
        } else if let Some(value) = strip_str(line, "worktree ") {
            proof {
                reveal_strlit("worktree ");
            }
            path = Some(string_of(&value));
        } else if let Some(value) = strip_str(line, "HEAD ") {
            proof {
                reveal_strlit("HEAD ");
            }
            let short = if value.len() > 8 {
                slice_chars(&value, 0, 8)
            } else {
                value
            };
            head = Some(string_of(&short));
        } else if let Some(value) = strip_str(line, "branch ") {
            proof {
                reveal_strlit("branch ");
            }
            let name = match strip_str(&value, "refs/heads/") {
                Some(rest) => rest,
                None => value,
            };
            branch = Some(string_of(&name));
        } else if let Some(value) = strip_str(line, "prunable") {
            proof {
                reveal_strlit("prunable");
            }
            prunable = Some(string_of(&trim_chars(&value)));
        } else if let Some(value) = strip_str(line, "locked") {
            proof {
                reveal_strlit("locked");
            }
            locked = Some(string_of(&trim_chars(&value)));
        }
        i += 1;
    }
    assert(ls.take(lines@.len() as int) =~= ls);
    done
}


/// A record with what the file system and Git said about it: whether its
/// path is the current worktree's root (both canonical), whether its
/// directory exists, and whether `git status` there reported changes.
pub struct DiscoveredWorktree {
    pub record: WorktreeRecord,
    pub is_current: bool,
    pub is_dir: bool,
    pub dirty: bool,
}

/// Why no worktree list could be made.
#[derive(Clone, Copy, Debug, PartialEq, Eq, Structural)]
pub enum WorktreeError {
    /// Git listed no worktree: the directory is not in one.
    NotAWorktree,
}

/// The worktree the navigator shows for a discovered record at place `i`:
/// the first is the main worktree; it is available when its directory exists
/// and Git does not call it prunable, dirty only when available; without a
/// branch it is on a detached HEAD.
pub open spec fn shown_worktree(d: DiscoveredWorktree, i: int, w: Worktree) -> bool {
    let available = d.is_dir && d.record.prunable_reason.is_none();
    &&& w.path@ == d.record.path@
    &&& w.branch@ == (match d.record.branch {
        Some(b) => b@,
        None => "detached HEAD"@,
    })
    &&& w.head@ == (match d.record.head {
        Some(h) => h@,
        None => Seq::<char>::empty(),
    })
    &&& w.is_current == d.is_current
    &&& w.is_main == (i == 0)
    &&& w.available == available
    &&& w.dirty == (available && d.dirty)
    &&& opt_text(w.prunable_reason) == opt_text(d.record.prunable_reason)
    &&& opt_text(w.locked_reason) == opt_text(d.record.locked_reason)
}

/// The worktrees the navigator shows, in Git's order; an error when Git
/// listed none.
pub fn discover_worktrees(found: Vec<DiscoveredWorktree>) -> (r: Result<Vec<Worktree>, WorktreeError>)
    ensures
        found@.len() == 0 <==> r is Err,
        r matches Ok(list) ==> list@.len() == found@.len() && forall|i: int|
            0 <= i < found@.len() ==> shown_worktree(found@[i], i, #[trigger] list@[i]),
{
    if found.len() == 0 {
        return Err(WorktreeError::NotAWorktree);
    }
    let ghost all = found@;
    let mut list: Vec<Worktree> = Vec::new();
    let mut rest = found;
    let mut items: Vec<DiscoveredWorktree> = Vec::new();
    while rest.len() > 0
        invariant
            items@ + rest@.reverse() == all.reverse(),
        decreases rest.len(),
    {
        let ghost before_items = items@;
        let ghost before_rest = rest@;
        let item = rest.pop().unwrap();
        items.push(item);
        assert(before_rest.reverse() =~= seq![item] + rest@.reverse());
    }
    assert(items@ =~= all.reverse());
    let mut i: usize = 0;
    let n = items.len();
    while items.len() > 0
        invariant
            n == all.len(),
            items@.len() + i == n,
            forall|q: int| 0 <= q < items@.len() ==> #[trigger] items@[q] == all[n - 1 - q],
            list@.len() == i,
            forall|q: int| 0 <= q < i ==> shown_worktree(all[q], q, #[trigger] list@[q]),
        decreases items.len(),
    {
        let ghost before = items@;
        let d = items.pop().unwrap();
        assert(d == all[i as int]);
        let available = d.is_dir && d.record.prunable_reason.is_none();
        let branch = match d.record.branch {
            Some(b) => b,
            None => owned("detached HEAD"),
        };
        let head = match d.record.head {
            Some(h) => h,
            None => String::new(),
        };
        let w = Worktree {
            path: d.record.path,
            branch,
            head,
            dirty: available && d.dirty,
            is_current: d.is_current,
            is_main: i == 0,
            available,
            prunable_reason: d.record.prunable_reason,
            locked_reason: d.record.locked_reason,
        };
        list.push(w);
        i += 1;
        assert forall|q: int| 0 <= q < items@.len() implies #[trigger] items@[q] == all[n - 1 - q] by {
            assert(items@[q] == before[q]);
        }
    }
    Ok(list)
}

/// Why a worktree may not be cleaned up from the Worktrees panel.
#[derive(Clone, Debug, PartialEq, Eq)]
pub enum RemovalRefusal {
    Current,
    Main,
    Locked(String),
    Dirty,
}

impl RemovalRefusal {
    /// The status-line text for a refusal.
    pub open spec fn text_of(self) -> Seq<char> {
        match self {
            RemovalRefusal::Current => "Cannot remove the currently opened worktree"@,
            RemovalRefusal::Main => "Cannot remove the main worktree"@,
            RemovalRefusal::Locked(reason) => if reason@.len() == 0 {
                "Cannot remove a locked worktree"@
            } else {
                "Cannot remove a locked worktree: "@ + reason@
            },
            RemovalRefusal::Dirty => "Cannot remove a dirty worktree. Commit, stash, or discard its changes first"@,
        }
    }

    /// The status-line text for a refusal.
    pub fn text(&self) -> (r: String)
        ensures
            r@ == self.text_of(),
    {
        match self {
            RemovalRefusal::Current => owned("Cannot remove the currently opened worktree"),
            RemovalRefusal::Main => owned("Cannot remove the main worktree"),
            RemovalRefusal::Locked(reason) => {
                let v = chars_of(reason.as_str());
                if v.len() == 0 {
                    owned("Cannot remove a locked worktree")
                } else {
                    let mut t = chars_of("Cannot remove a locked worktree: ");
                    let mut rest = v;
                    t.append(&mut rest);
                    string_of(&t)
                }
            },
            RemovalRefusal::Dirty => owned(
                "Cannot remove a dirty worktree. Commit, stash, or discard its changes first",
            ),
        }
    }
}

/// A worktree that may never be cleaned up: the current, the main, a locked
/// or a dirty one.
pub open spec fn protected(w: Worktree) -> bool {
    w.is_current || w.is_main || w.locked_reason is Some || w.dirty
}

/// Asks to clean up a worktree: the current, the main, a locked and a dirty
/// worktree are refused, in that order of checks; any other needs a
/// confirmation, which only prunes Git's metadata when the worktree is
/// missing.
pub fn request_worktree_removal(worktree: &Worktree) -> (r: Result<DeleteConfirmation, RemovalRefusal>)
    ensures
        worktree.is_current ==> r == Err::<DeleteConfirmation, RemovalRefusal>(RemovalRefusal::Current),
        !worktree.is_current && worktree.is_main ==> r == Err::<DeleteConfirmation, RemovalRefusal>(
            RemovalRefusal::Main,
        ),
        !worktree.is_current && !worktree.is_main && worktree.locked_reason is Some ==> (r matches Err(
            RemovalRefusal::Locked(reason),
        ) && Some(reason@) == opt_text(worktree.locked_reason)),
        !worktree.is_current && !worktree.is_main && worktree.locked_reason is None && worktree.dirty
            ==> r == Err::<DeleteConfirmation, RemovalRefusal>(RemovalRefusal::Dirty),
        !worktree.is_current && !worktree.is_main && worktree.locked_reason is None && !worktree.dirty
            ==> (r matches Ok(c) && c.path@ == worktree.path@ && c.branch@ == worktree.branch@
            && c.prune_only == worktree.missing()),
        r is Ok <==> !protected(*worktree),
{
    if worktree.is_current {
        return Err(RemovalRefusal::Current);
    }
    if worktree.is_main {
        return Err(RemovalRefusal::Main);
    }
    match &worktree.locked_reason {
        Some(reason) => {
            return Err(RemovalRefusal::Locked(reason.clone()));
        },
        None => {},
    }
    if worktree.dirty {
        return Err(RemovalRefusal::Dirty);
    }
    Ok(
        DeleteConfirmation {
            path: worktree.path.clone(),
            branch: worktree.branch.clone(),
            prune_only: worktree.is_missing(),
        },
    )
}

/// How a cleanup proceeds once confirmed.
#[derive(Clone, Copy, Debug, PartialEq, Eq, Structural)]
pub enum RemovalPlan {
    /// Remove the stale metadata of a missing worktree.
    PruneMetadata,
    /// Run `git worktree remove`.
    RemoveWorktree,
}

/// Why `remove_worktree` refuses.
#[derive(Clone, Debug, PartialEq, Eq)]
pub enum RemovalError {
    Current,
    Main,
    Locked(String),
    Dirty,
    /// A missing worktree that Git has not marked prunable.
    NotPrunable,
}

impl RemovalError {
    /// The message of a refusal.
    pub open spec fn text_of(self) -> Seq<char> {
        match self {
            RemovalError::Current => "cannot remove the worktree currently opened by git-navigator"@,
            RemovalError::Main => "Git does not allow removing the main worktree"@,
            RemovalError::Locked(reason) => if reason@.len() == 0 {
                "the selected worktree is locked"@
            } else {
                "the selected worktree is locked: "@ + reason@
            },
            RemovalError::Dirty => "the selected worktree contains uncommitted or untracked changes"@,
            RemovalError::NotPrunable => "Git has not marked the selected worktree as prunable"@,
        }
    }

    /// The message of a refusal.
    pub fn text(&self) -> (r: String)
        ensures
            r@ == self.text_of(),
    {
        match self {
            RemovalError::Current => owned("cannot remove the worktree currently opened by git-navigator"),
            RemovalError::Main => owned("Git does not allow removing the main worktree"),
            RemovalError::Locked(reason) => {
                let v = chars_of(reason.as_str());
                if v.len() == 0 {
                    owned("the selected worktree is locked")
                } else {
                    let mut t = chars_of("the selected worktree is locked: ");
                    let mut rest = v;
                    t.append(&mut rest);
                    string_of(&t)
                }
            },
            RemovalError::Dirty => owned("the selected worktree contains uncommitted or untracked changes"),
            RemovalError::NotPrunable => owned("Git has not marked the selected worktree as prunable"),
        }
    }
}

/// The checks `remove_worktree` makes before it touches anything: the
/// current, the main and a locked worktree are refused; a missing one has its
/// metadata pruned when Git marked it prunable and is refused otherwise; a
/// dirty one is refused; any other is removed.
pub fn removal_plan(worktree: &Worktree) -> (r: Result<RemovalPlan, RemovalError>)
    ensures
        worktree.is_current ==> r == Err::<RemovalPlan, RemovalError>(RemovalError::Current),
        !worktree.is_current && worktree.is_main ==> r == Err::<RemovalPlan, RemovalError>(
            RemovalError::Main,
        ),
        !worktree.is_current && !worktree.is_main && worktree.locked_reason is Some ==> (r matches Err(
            RemovalError::Locked(reason),
        ) && Some(reason@) == opt_text(worktree.locked_reason)),
        !worktree.is_current && !worktree.is_main && worktree.locked_reason is None
            && worktree.missing() && worktree.prunable_reason is Some ==> r == Ok::<
            RemovalPlan,
            RemovalError,
        >(RemovalPlan::PruneMetadata),
        !worktree.is_current && !worktree.is_main && worktree.locked_reason is None
            && worktree.missing() && worktree.prunable_reason is None ==> r == Err::<
            RemovalPlan,
            RemovalError,
        >(RemovalError::NotPrunable),
        !worktree.is_current && !worktree.is_main && worktree.locked_reason is None
            && !worktree.missing() && worktree.dirty ==> r == Err::<RemovalPlan, RemovalError>(
            RemovalError::Dirty,
        ),
        !worktree.is_current && !worktree.is_main && worktree.locked_reason is None
            && !worktree.missing() && !worktree.dirty ==> r == Ok::<RemovalPlan, RemovalError>(
            RemovalPlan::RemoveWorktree,
        ),
{
    if worktree.is_current {
        return Err(RemovalError::Current);
    }
    if worktree.is_main {
        return Err(RemovalError::Main);
    }
    match &worktree.locked_reason {
        Some(reason) => {
            return Err(RemovalError::Locked(reason.clone()));
        },
        None => {},
    }
    if worktree.is_missing() {
        if worktree.prunable_reason.is_none() {
            return Err(RemovalError::NotPrunable);
        }
        return Ok(RemovalPlan::PruneMetadata);
    }
    if worktree.dirty {
        return Err(RemovalError::Dirty);
    }
    Ok(RemovalPlan::RemoveWorktree)
}

} // verus!
