use git_navigator::cli::{change_mode, check_render_options, startup_panel, Cli, RenderMode, RenderRefusal, StartupFocus};
use git_navigator::model::ChangeMode;
use git_navigator::navigation::{Focus, WorktreePanel};

fn cli() -> Cli {
    Cli {
        directory: ".".into(),
        base: "main".into(),
        render: true,
        ansi: false,
        focus: None,
        mode: RenderMode::Uncommitted,
        commit: None,
        width: 120,
        height: 40,
    }
}

#[test]
fn render_options_need_a_size_and_history_for_a_commit() {
    assert_eq!(check_render_options(&cli()), Ok(()));
    let mut empty = cli();
    empty.width = 0;
    assert_eq!(check_render_options(&empty), Err(RenderRefusal::EmptySize));
    let mut commit = cli();
    commit.commit = Some("abc123".into());
    assert_eq!(check_render_options(&commit), Err(RenderRefusal::CommitWithoutHistory));
    commit.focus = Some(StartupFocus::History);
    assert_eq!(check_render_options(&commit), Ok(()));
}

#[test]
fn startup_options_choose_mode_and_panel() {
    assert_eq!(change_mode(RenderMode::Branch), ChangeMode::Branch);
    assert_eq!(startup_panel(StartupFocus::History), (Some(WorktreePanel::History), Focus::Worktrees));
    assert_eq!(startup_panel(StartupFocus::Diff).1, Focus::Diff);
}
