//! What a key press does: the decision table of the navigator's keyboard
//! handling, from the state of the interface and the key to an action.
use vstd::prelude::*;

use crate::navigation::Focus;

verus! {

/// A key press, as the navigator distinguishes them.
#[derive(Clone, Copy, Debug, PartialEq, Eq, Structural)]
pub enum Key {
    Char(char),
    Esc,
    Enter,
    Tab,
    Backspace,
    Left,
    Right,
    Up,
    Down,
    PageUp,
    PageDown,
    Home,
    End,
    Other,
}

/// What decides how a key is read: an open cleanup confirmation, the help
/// screen, a search being typed (and the panel it searches), and the focused
/// panel.
#[derive(Clone, Copy, Debug, PartialEq, Eq, Structural)]
pub struct KeyContext {
    pub confirming_removal: bool,
    pub show_help: bool,
    pub search_focus: Option<Focus>,
    pub focus: Focus,
}

/// What the navigator does for a key.
#[derive(Clone, Copy, Debug, PartialEq, Eq, Structural)]
pub enum KeyAction {
    Nothing,
    Quit,
    ConfirmRemoval,
    CancelRemoval,
    ShowHelp,
    CloseHelp,
    ClearSearch,
    ApplySearch,
    NextMatch,
    PreviousMatch,
    SwitchSearchPanel { right: bool },
    DeleteSearchCharacter,
    TypeSearchCharacter(char),
    ClearFilter(Focus),
    Refresh,
    ToggleFollow,
    OpenWorktree,
    RequestRemoval,
    ToggleHistory,
    ToggleMode,
    ToggleDiffView,
    ToggleDiffLayout,
    ToggleWrap,
    ToggleExpanded,
    CycleLayout,
    BeginSearch,
    FocusLeft,
    FocusRight,
    MoveUp,
    MoveDown,
    MoveDiff(isize),
    SelectFirstDiffRow,
    SelectLastDiffRow,
    ToggleHunk,
    CopyLocation,
}

/// The action for a key while a cleanup waits for confirmation.
pub open spec fn confirm_action(key: Key) -> KeyAction {
    match key {
        Key::Char(c) => if c == 'y' || c == 'Y' {
            KeyAction::ConfirmRemoval
        } else if c == 'n' || c == 'N' {
            KeyAction::CancelRemoval
        } else {
            KeyAction::Nothing
        },
        Key::Esc => KeyAction::CancelRemoval,
        _ => KeyAction::Nothing,
    }
}

/// The action for a key on the help screen.
pub open spec fn help_action(key: Key) -> KeyAction {
    match key {
        Key::Char(c) => if c == 'q' {
            KeyAction::Quit
        } else if c == '?' {
            KeyAction::CloseHelp
        } else {
            KeyAction::Nothing
        },
        Key::Esc | Key::Enter => KeyAction::CloseHelp,
        _ => KeyAction::Nothing,
    }
}

/// The action for a key while a search of panel `focus` is being typed: Up
/// and Down move between matches in a Diff search and through the filtered
/// items in a Worktrees or Files search.
pub open spec fn search_action(focus: Focus, key: Key) -> KeyAction {
    match key {
        Key::Esc => KeyAction::ClearSearch,
        Key::Enter => if focus == Focus::Diff {
            KeyAction::NextMatch
        } else {
            KeyAction::ApplySearch
        },
        Key::Left => KeyAction::SwitchSearchPanel { right: false },
        Key::Right => KeyAction::SwitchSearchPanel { right: true },
        Key::Backspace => KeyAction::DeleteSearchCharacter,
        Key::Char(c) => KeyAction::TypeSearchCharacter(c),
        Key::Up => if focus == Focus::Diff {
            KeyAction::PreviousMatch
        } else {
            KeyAction::MoveUp
        },
        Key::Down => if focus == Focus::Diff {
            KeyAction::NextMatch
        } else {
            KeyAction::MoveDown
        },
        _ => KeyAction::Nothing,
    }
}

/// The action for a character key in normal navigation.
pub open spec fn char_action(focus: Focus, c: char) -> KeyAction {
    if c == 'q' {
        KeyAction::Quit
    } else if c == '?' {
        KeyAction::ShowHelp
    } else if c == 'r' {
        KeyAction::Refresh
    } else if c == 'f' {
        KeyAction::ToggleFollow
    } else if c == 'o' {
        KeyAction::OpenWorktree
    } else if c == 'd' {
        if focus == Focus::Worktrees {
            KeyAction::RequestRemoval
        } else {
            KeyAction::Nothing
        }
    } else if c == 'h' {
        if focus == Focus::Diff {
            KeyAction::FocusLeft
        } else {
            KeyAction::ToggleHistory
        }
    } else if c == 'v' {
        KeyAction::ToggleDiffView
    } else if c == 's' {
        KeyAction::ToggleDiffLayout
    } else if c == 'w' {
        KeyAction::ToggleWrap
    } else if c == ' ' {
        KeyAction::ToggleExpanded
    } else if c == 't' {
        KeyAction::CycleLayout
    } else if c == '/' {
        KeyAction::BeginSearch
    } else if c == 'l' {
        KeyAction::FocusRight
    } else if c == 'k' {
        KeyAction::MoveUp
    } else if c == 'j' {
        KeyAction::MoveDown
    } else if c == 'c' {
        if focus == Focus::Diff {
            KeyAction::CopyLocation
        } else {
            KeyAction::Nothing
        }
    } else {
        KeyAction::Nothing
    }
}

/// The action for a key in normal navigation.
pub open spec fn navigation_action(focus: Focus, key: Key) -> KeyAction {
    let diff = focus == Focus::Diff;
    match key {
        Key::Char(c) => char_action(focus, c),
        Key::Esc => if diff {
            KeyAction::Nothing
        } else {
            KeyAction::ClearFilter(focus)
        },
        Key::Tab => KeyAction::ToggleMode,
        Key::Left => KeyAction::FocusLeft,
        Key::Right => KeyAction::FocusRight,
        Key::Up => KeyAction::MoveUp,
        Key::Down => KeyAction::MoveDown,
        Key::PageUp => if diff {
            KeyAction::MoveDiff(-10isize)
        } else {
            KeyAction::Nothing
        },
        Key::PageDown => if diff {
            KeyAction::MoveDiff(10isize)
        } else {
            KeyAction::Nothing
        },
        Key::Home => if diff {
            KeyAction::SelectFirstDiffRow
        } else {
            KeyAction::Nothing
        },
        Key::End => if diff {
            KeyAction::SelectLastDiffRow
        } else {
            KeyAction::Nothing
        },
        Key::Enter => if diff {
            KeyAction::ToggleHunk
        } else {
            KeyAction::Nothing
        },
        _ => KeyAction::Nothing,
    }
}

/// The action for a key: a cleanup confirmation takes every key first, then
/// the help screen, then a search being typed; otherwise normal navigation.
pub open spec fn action_for(ctx: KeyContext, key: Key) -> KeyAction {
    if ctx.confirming_removal {
        confirm_action(key)
    } else if ctx.show_help {
        help_action(key)
    } else {
        match ctx.search_focus {
            Some(f) => search_action(f, key),
            None => navigation_action(ctx.focus, key),
        }
    }
}

fn char_key_action(focus: Focus, c: char) -> (r: KeyAction)
    ensures
        r == char_action(focus, c),
{
    match c {
        'q' => KeyAction::Quit,
        '?' => KeyAction::ShowHelp,
        'r' => KeyAction::Refresh,
        'f' => KeyAction::ToggleFollow,
        'o' => KeyAction::OpenWorktree,
        'd' => if focus == Focus::Worktrees {
            KeyAction::RequestRemoval
        } else {
            KeyAction::Nothing
        },
        'h' => if focus == Focus::Diff {
            KeyAction::FocusLeft
        } else {
            KeyAction::ToggleHistory
        },
        'v' => KeyAction::ToggleDiffView,
        's' => KeyAction::ToggleDiffLayout,
        'w' => KeyAction::ToggleWrap,
        ' ' => KeyAction::ToggleExpanded,
        't' => KeyAction::CycleLayout,
        '/' => KeyAction::BeginSearch,
        'l' => KeyAction::FocusRight,
        'k' => KeyAction::MoveUp,
        'j' => KeyAction::MoveDown,
        'c' => if focus == Focus::Diff {
            KeyAction::CopyLocation
        } else {
            KeyAction::Nothing
        },
        _ => KeyAction::Nothing,
    }
}

/// What the navigator does for a key press.
pub fn key_action(ctx: KeyContext, key: Key) -> (r: KeyAction)
    ensures
        r == action_for(ctx, key),
{
    if ctx.confirming_removal {
        return match key {
            Key::Char('y') | Key::Char('Y') => KeyAction::ConfirmRemoval,
            Key::Char('n') | Key::Char('N') | Key::Esc => KeyAction::CancelRemoval,
            _ => KeyAction::Nothing,
        };
    }
    if ctx.show_help {
        return match key {
            Key::Char('q') => KeyAction::Quit,
            Key::Char('?') | Key::Esc | Key::Enter => KeyAction::CloseHelp,
            _ => KeyAction::Nothing,
        };
    }
    if let Some(search_focus) = ctx.search_focus {
        return match key {
            Key::Esc => KeyAction::ClearSearch,
            Key::Enter => if search_focus == Focus::Diff {
                KeyAction::NextMatch
            } else {
                KeyAction::ApplySearch
            },
            Key::Left => KeyAction::SwitchSearchPanel { right: false },
            Key::Right => KeyAction::SwitchSearchPanel { right: true },
            Key::Backspace => KeyAction::DeleteSearchCharacter,
            Key::Char(c) => KeyAction::TypeSearchCharacter(c),
            Key::Up => if search_focus == Focus::Diff {
                KeyAction::PreviousMatch
            } else {
                KeyAction::MoveUp
            },
            Key::Down => if search_focus == Focus::Diff {
                KeyAction::NextMatch
            } else {
                KeyAction::MoveDown
            },
            _ => KeyAction::Nothing,
        };
    }
    let diff = ctx.focus == Focus::Diff;
    match key {
        Key::Char(c) => char_key_action(ctx.focus, c),
        Key::Esc => if diff {
            KeyAction::Nothing
        } else {
            KeyAction::ClearFilter(ctx.focus)
        },
        Key::Tab => KeyAction::ToggleMode,
        Key::Left => KeyAction::FocusLeft,
        Key::Right => KeyAction::FocusRight,
        Key::Up => KeyAction::MoveUp,
        Key::Down => KeyAction::MoveDown,
        Key::PageUp => if diff {
            KeyAction::MoveDiff(-10isize)
        } else {
            KeyAction::Nothing
        },
        Key::PageDown => if diff {
            KeyAction::MoveDiff(10isize)
        } else {
            KeyAction::Nothing
        },
        Key::Home => if diff {
            KeyAction::SelectFirstDiffRow
        } else {
            KeyAction::Nothing
        },
        Key::End => if diff {
            KeyAction::SelectLastDiffRow
        } else {
            KeyAction::Nothing
        },
        Key::Enter => if diff {
            KeyAction::ToggleHunk
        } else {
            KeyAction::Nothing
        },
        _ => KeyAction::Nothing,
    }
}

/// In normal navigation with the Diff focused, Page Up moves the selection
/// ten rows up and Page Down ten rows down, the one the reverse of the other;
/// Home and End go to the first and last row. On other panels these keys do
/// nothing.
pub proof fn lemma_page_keys(ctx: KeyContext)
    requires
        !ctx.confirming_removal,
        !ctx.show_help,
        ctx.search_focus is None,
    ensures
        ctx.focus == Focus::Diff ==> action_for(ctx, Key::PageUp) == KeyAction::MoveDiff(-10isize),
        ctx.focus == Focus::Diff ==> action_for(ctx, Key::PageDown) == KeyAction::MoveDiff(10isize),
        ctx.focus == Focus::Diff ==> (action_for(ctx, Key::PageUp) matches KeyAction::MoveDiff(up)
            && action_for(ctx, Key::PageDown) matches KeyAction::MoveDiff(down) && up == -down
            && up < 0),
        ctx.focus == Focus::Diff ==> action_for(ctx, Key::Home) == KeyAction::SelectFirstDiffRow
            && action_for(ctx, Key::End) == KeyAction::SelectLastDiffRow,
        ctx.focus != Focus::Diff ==> action_for(ctx, Key::PageUp) == KeyAction::Nothing
            && action_for(ctx, Key::PageDown) == KeyAction::Nothing,
{
}

/// Keys promised by the help: `q` quits from navigation and from the help
/// screen; while a cleanup waits for confirmation only `y`/`Y` confirm it
/// and nothing else acts but cancelling; Diff-only keys do nothing on other
/// panels; worktree cleanup is only requested from the Worktrees panel; and
/// Up and Down move through the filtered items of a Worktrees or Files
/// search.
pub proof fn lemma_key_guarantees(ctx: KeyContext, key: Key)
    ensures
        !ctx.confirming_removal && ctx.search_focus is None && key == Key::Char('q') ==> action_for(
            ctx,
            key,
        ) == KeyAction::Quit,
        ctx.confirming_removal ==> (action_for(ctx, key) == KeyAction::ConfirmRemoval <==> (key
            == Key::Char('y') || key == Key::Char('Y'))),
        ctx.confirming_removal ==> (action_for(ctx, key) == KeyAction::ConfirmRemoval || action_for(
            ctx,
            key,
        ) == KeyAction::CancelRemoval || action_for(ctx, key) == KeyAction::Nothing),
        action_for(ctx, key) == KeyAction::RequestRemoval ==> ctx.focus == Focus::Worktrees
            && !ctx.confirming_removal && !ctx.show_help && ctx.search_focus is None,
        !ctx.confirming_removal && !ctx.show_help && ctx.search_focus is Some
            && ctx.search_focus->0 != Focus::Diff ==> (key == Key::Up ==> action_for(ctx, key) == KeyAction::MoveUp) && (key
            == Key::Down ==> action_for(ctx, key) == KeyAction::MoveDown),
        ctx.focus != Focus::Diff ==> action_for(ctx, key) != KeyAction::ToggleHunk && action_for(
            ctx,
            key,
        ) != KeyAction::CopyLocation && action_for(ctx, key) != KeyAction::SelectFirstDiffRow,
{
}

} // verus!
