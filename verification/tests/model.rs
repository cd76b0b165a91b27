use git_navigator::model::{ChangeMode, DiffLayout, DiffView, HunkKind, Worktree};

fn missing(path: &str) -> Worktree {
    Worktree {
        path: path.into(),
        branch: "feature".into(),
        head: "12345678".into(),
        dirty: false,
        is_current: false,
        is_main: false,
        available: false,
        prunable_reason: Some("gitdir file points to non-existent location".into()),
        locked_reason: None,
    }
}

#[test]
fn toggles_diff_views() {
    assert_eq!(DiffView::Hunks.toggle(), DiffView::FullFile);
    assert_eq!(DiffView::FullFile.toggle(), DiffView::Hunks);
}

#[test]
fn toggles_diff_layouts() {
    assert_eq!(DiffLayout::Split.toggle(), DiffLayout::Unified);
    assert_eq!(DiffLayout::Unified.toggle(), DiffLayout::Split);
}

#[test]
fn toggles_change_modes_and_back() {
    assert_eq!(ChangeMode::Uncommitted.toggle(), ChangeMode::Branch);
    assert_eq!(ChangeMode::Branch.toggle().toggle(), ChangeMode::Branch);
}

#[test]
fn labels_name_views_layouts_and_hunk_kinds() {
    assert_eq!(DiffView::Hunks.label(), "HUNKS");
    assert_eq!(DiffView::FullFile.label(), "FULL FILE");
    assert_eq!(DiffLayout::Split.label(), "SPLIT");
    assert_eq!(DiffLayout::Unified.label(), "UNIFIED");
    assert_eq!(HunkKind::Combined.label(), "BRANCH");
    assert_eq!(HunkKind::Untracked.label(), "UNTRACKED");
}

#[test]
fn app_missing_worktrees_are_identified_as_unavailable() {
    let worktree = missing("/missing");
    assert!(worktree.is_missing());
}

#[test]
fn mod_missing_worktrees_are_identified_as_unavailable() {
    let worktree = missing("/missing");
    assert!(worktree.is_missing());
}

#[test]
fn available_worktrees_without_prune_reason_are_present() {
    let mut worktree = missing("/present");
    worktree.available = true;
    worktree.prunable_reason = None;
    assert!(!worktree.is_missing());
    worktree.prunable_reason = Some(String::new());
    assert!(worktree.is_missing());
}
