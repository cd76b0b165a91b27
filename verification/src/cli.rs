//! The command line: its options, and how the startup options set up the
//! interface.
use vstd::prelude::*;

use crate::model::ChangeMode;
use crate::navigation::{Focus, WorktreePanel};

verus! {

/// The comparison a rendered snapshot shows.
#[derive(Clone, Copy, Debug, PartialEq, Eq, Structural)]
pub enum RenderMode {
    Uncommitted,
    Branch,
}

/// The panel to start focused and expanded.
#[derive(Clone, Copy, Debug, PartialEq, Eq, Structural)]
pub enum StartupFocus {
    Worktrees,
    History,
    Files,
    Diff,
}

/// The options of the command line.
#[derive(Clone, Debug, PartialEq, Eq)]
pub struct Cli {
    /// Directory inside the repository to inspect.
    pub directory: String,
    /// Base branch used by Branch mode.
    pub base: String,
    /// Render a text snapshot instead of opening the interactive interface.
    pub render: bool,
    /// Keep terminal colors and modifiers in rendered output.
    pub ansi: bool,
    /// Start with this panel focused and expanded.
    pub focus: Option<StartupFocus>,
    /// Comparison mode of a rendered snapshot.
    pub mode: RenderMode,
    /// Commit hash or short hash to select in a rendered History panel.
    pub commit: Option<String>,
    /// Snapshot width in terminal cells.
    pub width: u16,
    /// Snapshot height in terminal cells.
    pub height: u16,
}

/// The comparison mode a render mode selects.
pub fn change_mode(mode: RenderMode) -> (r: ChangeMode)
    ensures
        r == (match mode {
            RenderMode::Uncommitted => ChangeMode::Uncommitted,
            RenderMode::Branch => ChangeMode::Branch,
        }),
{
    match mode {
        RenderMode::Uncommitted => ChangeMode::Uncommitted,
        RenderMode::Branch => ChangeMode::Branch,
    }
}

/// The panel a startup focus selects, and what the first panel shows when
/// the option decides it: History and Worktrees both focus the first panel
/// and choose what it shows; Files and Diff focus their own panel.
pub fn startup_panel(focus: StartupFocus) -> (r: (Option<WorktreePanel>, Focus))
    ensures
        r == (match focus {
            StartupFocus::History => (Some(WorktreePanel::History), Focus::Worktrees),
            StartupFocus::Worktrees => (Some(WorktreePanel::Worktrees), Focus::Worktrees),
            StartupFocus::Files => (None::<WorktreePanel>, Focus::Files),
            StartupFocus::Diff => (None::<WorktreePanel>, Focus::Diff),
        }),
{
    match focus {
        StartupFocus::History => (Some(WorktreePanel::History), Focus::Worktrees),
        StartupFocus::Worktrees => (Some(WorktreePanel::Worktrees), Focus::Worktrees),
        StartupFocus::Files => (None, Focus::Files),
        StartupFocus::Diff => (None, Focus::Diff),
    }
}

/// Why a snapshot cannot be rendered.
#[derive(Clone, Copy, Debug, PartialEq, Eq, Structural)]
pub enum RenderRefusal {
    /// The snapshot would have no cells.
    EmptySize,
    /// A commit can only be selected in the History panel.
    CommitWithoutHistory,
}

/// Checks the snapshot options: the size must be positive, and a commit may
/// only be chosen together with the History focus.
pub fn check_render_options(cli: &Cli) -> (r: Result<(), RenderRefusal>)
    ensures
        (cli.width == 0 || cli.height == 0) ==> r == Err::<(), RenderRefusal>(RenderRefusal::EmptySize),
        cli.width > 0 && cli.height > 0 && cli.commit is Some && cli.focus != Some(
            StartupFocus::History,
        ) ==> r == Err::<(), RenderRefusal>(RenderRefusal::CommitWithoutHistory),
        cli.width > 0 && cli.height > 0 && (cli.commit is None || cli.focus == Some(
            StartupFocus::History,
        )) ==> r is Ok,
{
    if cli.width == 0 || cli.height == 0 {
        return Err(RenderRefusal::EmptySize);
    }
    let history = match cli.focus {
        Some(StartupFocus::History) => true,
        _ => false,
    };
    if cli.commit.is_some() && !history {
        return Err(RenderRefusal::CommitWithoutHistory);
    }
    Ok(())
}

} // verus!
