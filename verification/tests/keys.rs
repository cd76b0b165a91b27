use git_navigator::keys::{key_action, Key, KeyAction, KeyContext};
use git_navigator::navigation::Focus;

fn normal(focus: Focus) -> KeyContext {
    KeyContext { confirming_removal: false, show_help: false, search_focus: None, focus }
}

#[test]
fn a_pending_cleanup_takes_every_key() {
    let ctx = KeyContext { confirming_removal: true, ..normal(Focus::Worktrees) };
    assert_eq!(key_action(ctx, Key::Char('y')), KeyAction::ConfirmRemoval);
    assert_eq!(key_action(ctx, Key::Char('N')), KeyAction::CancelRemoval);
    assert_eq!(key_action(ctx, Key::Esc), KeyAction::CancelRemoval);
    assert_eq!(key_action(ctx, Key::Char('q')), KeyAction::Nothing);
}

#[test]
fn help_closes_or_quits() {
    let ctx = KeyContext { show_help: true, ..normal(Focus::Files) };
    assert_eq!(key_action(ctx, Key::Char('q')), KeyAction::Quit);
    assert_eq!(key_action(ctx, Key::Enter), KeyAction::CloseHelp);
    assert_eq!(key_action(ctx, Key::Down), KeyAction::Nothing);
}

#[test]
fn typing_goes_to_the_search() {
    let ctx = KeyContext { search_focus: Some(Focus::Diff), ..normal(Focus::Diff) };
    assert_eq!(key_action(ctx, Key::Char('q')), KeyAction::TypeSearchCharacter('q'));
    assert_eq!(key_action(ctx, Key::Enter), KeyAction::NextMatch);
    assert_eq!(key_action(ctx, Key::Up), KeyAction::PreviousMatch);
    let files = KeyContext { search_focus: Some(Focus::Files), ..normal(Focus::Files) };
    assert_eq!(key_action(files, Key::Enter), KeyAction::ApplySearch);
    assert_eq!(key_action(files, Key::Right), KeyAction::SwitchSearchPanel { right: true });
    assert_eq!(key_action(files, Key::Backspace), KeyAction::DeleteSearchCharacter);
    assert_eq!(key_action(ctx, Key::Down), KeyAction::NextMatch);
    assert_eq!(key_action(files, Key::Down), KeyAction::MoveDown);
    assert_eq!(key_action(files, Key::Up), KeyAction::MoveUp);
    let worktrees = KeyContext { search_focus: Some(Focus::Worktrees), ..normal(Focus::Worktrees) };
    assert_eq!(key_action(worktrees, Key::Down), KeyAction::MoveDown);
    assert_eq!(key_action(worktrees, Key::Up), KeyAction::MoveUp);
}

#[test]
fn diff_keys_only_work_on_the_diff_panel() {
    assert_eq!(key_action(normal(Focus::Diff), Key::PageDown), KeyAction::MoveDiff(10));
    assert_eq!(key_action(normal(Focus::Files), Key::PageDown), KeyAction::Nothing);
    assert_eq!(key_action(normal(Focus::Diff), Key::Enter), KeyAction::ToggleHunk);
    assert_eq!(key_action(normal(Focus::Diff), Key::Char('c')), KeyAction::CopyLocation);
    assert_eq!(key_action(normal(Focus::Worktrees), Key::Char('d')), KeyAction::RequestRemoval);
    assert_eq!(key_action(normal(Focus::Files), Key::Char('d')), KeyAction::Nothing);
    assert_eq!(key_action(normal(Focus::Files), Key::Char('h')), KeyAction::ToggleHistory);
    assert_eq!(key_action(normal(Focus::Diff), Key::Char('h')), KeyAction::FocusLeft);
    assert_eq!(key_action(normal(Focus::Files), Key::Esc), KeyAction::ClearFilter(Focus::Files));
    assert_eq!(key_action(normal(Focus::Diff), Key::Esc), KeyAction::Nothing);
    assert_eq!(key_action(normal(Focus::Diff), Key::Char('t')), KeyAction::CycleLayout);
}

#[test]
fn h_and_l_move_between_panels_as_the_help_says() {
    assert_eq!(key_action(normal(Focus::Files), Key::Char('l')), KeyAction::FocusRight);
    assert_eq!(key_action(normal(Focus::Diff), Key::Char('h')), KeyAction::FocusLeft);
}
