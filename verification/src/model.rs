//! The data the navigator shows: comparison modes, worktrees, commits, changed
//! files, hunks and diff rows, with their mathematical views.
use vstd::prelude::*;

verus! {

/// What a diff compares against.
#[derive(Clone, Copy, Debug, Default, PartialEq, Eq, Structural)]
pub enum ChangeMode {
    #[default]
    Uncommitted,
    Branch,
}

impl ChangeMode {
    /// The other mode.
    pub open spec fn toggled(self) -> Self {
        match self {
            ChangeMode::Uncommitted => ChangeMode::Branch,
            ChangeMode::Branch => ChangeMode::Uncommitted,
        }
    }

    pub fn toggle(self) -> (r: Self)
        ensures
            r == self.toggled(),
    {
        match self {
            ChangeMode::Uncommitted => ChangeMode::Branch,
            ChangeMode::Branch => ChangeMode::Uncommitted,
        }
    }
}

/// Whether a diff shows hunks or whole files.
#[derive(Clone, Copy, Debug, Default, PartialEq, Eq, Structural)]
pub enum DiffView {
    #[default]
    Hunks,
    FullFile,
}

impl DiffView {
    /// The other view.
    pub open spec fn toggled(self) -> Self {
        match self {
            DiffView::Hunks => DiffView::FullFile,
            DiffView::FullFile => DiffView::Hunks,
        }
    }

    pub fn toggle(self) -> (r: Self)
        ensures
            r == self.toggled(),
    {
        match self {
            DiffView::Hunks => DiffView::FullFile,
            DiffView::FullFile => DiffView::Hunks,
        }
    }

    /// The title shown for the view.
    pub open spec fn label_text(self) -> Seq<char> {
        match self {
            DiffView::Hunks => "HUNKS"@,
            DiffView::FullFile => "FULL FILE"@,
        }
    }

    pub fn label(self) -> (r: &'static str)
        ensures
            r@ == self.label_text(),
    {
        match self {
            DiffView::Hunks => "HUNKS",
            DiffView::FullFile => "FULL FILE",
        }
    }
}

/// Side-by-side or stacked diff rows.
#[derive(Clone, Copy, Debug, Default, PartialEq, Eq, Structural)]
pub enum DiffLayout {
    #[default]
    Split,
    Unified,
}

impl DiffLayout {
    /// The other layout.
    pub open spec fn toggled(self) -> Self {
        match self {
            DiffLayout::Split => DiffLayout::Unified,
            DiffLayout::Unified => DiffLayout::Split,
        }
    }

    pub fn toggle(self) -> (r: Self)
        ensures
            r == self.toggled(),
    {
        match self {
            DiffLayout::Split => DiffLayout::Unified,
            DiffLayout::Unified => DiffLayout::Split,
        }
    }

    /// The title shown for the layout.
    pub open spec fn label_text(self) -> Seq<char> {
        match self {
            DiffLayout::Split => "SPLIT"@,
            DiffLayout::Unified => "UNIFIED"@,
        }
    }

    pub fn label(self) -> (r: &'static str)
        ensures
            r@ == self.label_text(),
    {
        match self {
            DiffLayout::Split => "SPLIT",
            DiffLayout::Unified => "UNIFIED",
        }
    }
}

/// A checkout registered with the repository.
#[derive(Clone, Debug, PartialEq, Eq)]
pub struct Worktree {
    pub path: String,
    pub branch: String,
    pub head: String,
    pub dirty: bool,
    pub is_current: bool,
    pub is_main: bool,
    pub available: bool,
    pub prunable_reason: Option<String>,
    pub locked_reason: Option<String>,
}

impl Worktree {
    /// The checkout's directory is gone or Git marked it prunable.
    pub open spec fn missing(&self) -> bool {
        !self.available || self.prunable_reason.is_some()
    }

    pub fn is_missing(&self) -> (r: bool)
        ensures
            r == self.missing(),
    {
        !self.available || self.prunable_reason.is_some()
    }
}

/// One entry of the commit graph.
#[derive(Clone, Debug, PartialEq, Eq)]
pub struct Commit {
    pub hash: String,
    pub parents: Vec<String>,
    pub short_hash: String,
    pub subject: String,
    pub graph: Vec<String>,
}

/// What the history panel has selected: the live working tree or a commit.
#[derive(Clone, Debug, PartialEq, Eq)]
pub enum HistorySelection {
    Wip,
    Commit { hash: String },
}

/// How a file changed.
#[derive(Clone, Copy, Debug, PartialEq, Eq, Structural)]
pub enum FileStatus {
    Added,
    Deleted,
    Modified,
    Renamed,
    Untracked,
    Conflicted,
}

/// A file with its changes.
#[derive(Clone, Debug, PartialEq, Eq)]
pub struct ChangedFile {
    pub path: String,
    pub old_path: Option<String>,
    pub status: FileStatus,
    pub additions: usize,
    pub deletions: usize,
    pub hunks: Vec<DiffHunk>,
    pub binary: bool,
}

/// One row of the folder tree of changed files.
#[derive(Clone, Debug, PartialEq, Eq)]
pub struct FileTreeRow {
    pub path: String,
    pub kind: FileTreeRowKind,
}

/// Whether a tree row is a folder or a file.
#[derive(Clone, Copy, Debug, PartialEq, Eq, Structural)]
pub enum FileTreeRowKind {
    Directory,
    File,
}

impl FileTreeRow {
    pub fn is_directory(&self) -> (r: bool)
        ensures
            r == (self.kind == FileTreeRowKind::Directory),
    {
        self.kind == FileTreeRowKind::Directory
    }
}

impl ChangedFile {
    /// A file with no counted lines, no hunks and no old path.
    pub fn empty(path: String, status: FileStatus) -> (r: Self)
        ensures
            r@ == (FileView {
                path: path@,
                old_path: None,
                status: status,
                additions: 0,
                deletions: 0,
                hunks: seq![],
                binary: false,
            }),
    {
        let r = ChangedFile {
            path,
            old_path: None,
            status,
            additions: 0,
            deletions: 0,
            hunks: Vec::new(),
            binary: false,
        };
        assert(r@.hunks =~= Seq::<HunkView>::empty());
        r
    }
}

/// Where a hunk came from.
#[derive(Clone, Copy, Debug, PartialEq, Eq, Structural)]
pub enum HunkKind {
    Staged,
    Unstaged,
    Combined,
    FullFile,
    Untracked,
}

impl HunkKind {
    /// The tag shown for a hunk of this kind.
    pub open spec fn label_text(self) -> Seq<char> {
        match self {
            HunkKind::Staged => "STAGED"@,
            HunkKind::Unstaged => "UNSTAGED"@,
            HunkKind::Combined => "BRANCH"@,
            HunkKind::FullFile => "FULL FILE"@,
            HunkKind::Untracked => "UNTRACKED"@,
        }
    }

    pub fn label(self) -> (r: &'static str)
        ensures
            r@ == self.label_text(),
    {
        match self {
            HunkKind::Staged => "STAGED",
            HunkKind::Unstaged => "UNSTAGED",
            HunkKind::Combined => "BRANCH",
            HunkKind::FullFile => "FULL FILE",
            HunkKind::Untracked => "UNTRACKED",
        }
    }
}

/// A run of changed rows with its header.
#[derive(Clone, Debug, PartialEq, Eq)]
pub struct DiffHunk {
    pub id: HunkId,
    pub header: String,
    pub kind: HunkKind,
    pub rows: Vec<DiffRow>,
    pub collapsed: bool,
}

/// A name that tells a hunk apart from the others of its file.
#[derive(Clone, Debug, PartialEq, Eq, Hash)]
pub struct HunkId(pub String);

impl HunkId {
    pub fn synthetic(value: &str) -> (r: Self)
        ensures
            r.0@ == value@,
    {
        HunkId(crate::text::owned(value))
    }
}

/// One displayed row: an old line, a new line, or both.
#[derive(Clone, Debug, PartialEq, Eq)]
pub struct DiffRow {
    pub old_number: Option<usize>,
    pub new_number: Option<usize>,
    pub old_text: Option<String>,
    pub new_text: Option<String>,
    pub kind: DiffRowKind,
}

/// How the two sides of a row relate.
#[derive(Clone, Copy, Debug, PartialEq, Eq, Structural)]
pub enum DiffRowKind {
    Context,
    Added,
    Deleted,
    Modified,
}

/// The text of an optional string.
pub open spec fn opt_text(o: Option<String>) -> Option<Seq<char>> {
    match o {
        Some(s) => Some(s@),
        None => None,
    }
}

/// The texts of a list of strings.
pub open spec fn texts(v: Seq<String>) -> Seq<Seq<char>> {
    v.map_values(|s: String| s@)
}

/// A diff row as values.
pub struct RowView {
    pub old_number: Option<usize>,
    pub new_number: Option<usize>,
    pub old_text: Option<Seq<char>>,
    pub new_text: Option<Seq<char>>,
    pub kind: DiffRowKind,
}

impl View for DiffRow {
    type V = RowView;

    open spec fn view(&self) -> RowView {
        RowView {
            old_number: self.old_number,
            new_number: self.new_number,
            old_text: opt_text(self.old_text),
            new_text: opt_text(self.new_text),
            kind: self.kind,
        }
    }
}

/// A hunk as values.
pub struct HunkView {
    pub id: Seq<char>,
    pub header: Seq<char>,
    pub kind: HunkKind,
    pub rows: Seq<RowView>,
    pub collapsed: bool,
}

/// The views of a list of rows.
pub open spec fn rows_view(v: Seq<DiffRow>) -> Seq<RowView> {
    v.map_values(|r: DiffRow| r@)
}

impl View for DiffHunk {
    type V = HunkView;

    open spec fn view(&self) -> HunkView {
        HunkView {
            id: self.id.0@,
            header: self.header@,
            kind: self.kind,
            rows: rows_view(self.rows@),
            collapsed: self.collapsed,
        }
    }
}

/// A changed file as values.
pub struct FileView {
    pub path: Seq<char>,
    pub old_path: Option<Seq<char>>,
    pub status: FileStatus,
    pub additions: nat,
    pub deletions: nat,
    pub hunks: Seq<HunkView>,
    pub binary: bool,
}

/// The views of a list of hunks.
pub open spec fn hunks_view(v: Seq<DiffHunk>) -> Seq<HunkView> {
    v.map_values(|h: DiffHunk| h@)
}

/// The views of a list of files.
pub open spec fn files_view(v: Seq<ChangedFile>) -> Seq<FileView> {
    v.map_values(|f: ChangedFile| f@)
}

impl View for ChangedFile {
    type V = FileView;

    open spec fn view(&self) -> FileView {
        FileView {
            path: self.path@,
            old_path: opt_text(self.old_path),
            status: self.status,
            additions: self.additions as nat,
            deletions: self.deletions as nat,
            hunks: hunks_view(self.hunks@),
            binary: self.binary,
        }
    }
}

/// Toggling a comparison mode twice gives it back.
pub proof fn lemma_change_mode_toggle_involutive(m: ChangeMode)
    ensures
        m.toggled().toggled() == m,
        m.toggled() != m,
{
}

/// Toggling a diff view twice gives it back.
pub proof fn lemma_diff_view_toggle_involutive(v: DiffView)
    ensures
        v.toggled().toggled() == v,
        v.toggled() != v,
{
}

/// Toggling a diff layout twice gives it back.
pub proof fn lemma_diff_layout_toggle_involutive(l: DiffLayout)
    ensures
        l.toggled().toggled() == l,
        l.toggled() != l,
{
}

/// A commit as values.
pub struct CommitView {
    pub hash: Seq<char>,
    pub parents: Seq<Seq<char>>,
    pub short_hash: Seq<char>,
    pub subject: Seq<char>,
    pub graph: Seq<Seq<char>>,
}

impl View for Commit {
    type V = CommitView;

    open spec fn view(&self) -> CommitView {
        CommitView {
            hash: self.hash@,
            parents: texts(self.parents@),
            short_hash: self.short_hash@,
            subject: self.subject@,
            graph: texts(self.graph@),
        }
    }
}

/// The views of a list of commits.
pub open spec fn commits_view(v: Seq<Commit>) -> Seq<CommitView> {
    v.map_values(|c: Commit| c@)
}

} // verus!
