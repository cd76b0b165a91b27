use git_navigator::editor::{command_for_path, EditorCommand, Platform};

#[test]
fn visual_takes_precedence_over_editor() {
    assert_eq!(
        command_for_path(
            "/repo/worktree",
            Some("code --reuse-window".into()),
            Some("vim".into()),
            Platform::Linux,
        ),
        EditorCommand {
            program: "code".into(),
            args: vec!["--reuse-window".into(), "/repo/worktree".into()],
        }
    );
}

#[test]
fn editor_is_used_when_visual_is_not_set() {
    assert_eq!(
        command_for_path("/repo/worktree", None, Some("zed".into()), Platform::Linux),
        EditorCommand {
            program: "zed".into(),
            args: vec!["/repo/worktree".into()],
        }
    );
}

#[test]
fn paths_with_spaces_remain_one_argument() {
    assert_eq!(
        command_for_path("/repo/my worktree", Some("code".into()), None, Platform::Linux).args,
        vec!["/repo/my worktree"]
    );
}

#[test]
fn empty_editor_values_use_the_platform_opener() {
    let command = command_for_path("/repo", None, None, Platform::Linux);
    assert_eq!(command.args, vec!["/repo"]);
    assert_eq!(command.program, "xdg-open");
}

#[test]
fn editor_words_are_split_on_any_whitespace() {
    let command = command_for_path("/p", None, Some("  emacs\t-nw  ".into()), Platform::Linux);
    assert_eq!(command.program, "emacs");
    assert_eq!(command.args, vec!["-nw", "/p"]);
}

#[test]
fn each_platform_has_its_own_opener() {
    let mac = command_for_path("/repo", None, None, Platform::MacOs);
    assert_eq!((mac.program.as_str(), mac.args), ("open", vec!["/repo".to_string()]));
    let windows = command_for_path("/repo", None, None, Platform::Windows);
    assert_eq!(windows.program, "cmd");
    assert_eq!(windows.args, vec!["/C", "start", "", "/repo"]);
    let other = command_for_path("/repo", None, None, Platform::Other);
    assert_eq!(other.program, "xdg-open");
    let editor = command_for_path("/repo", Some("vim".into()), None, Platform::Windows);
    assert_eq!(editor.program, "vim");
}
