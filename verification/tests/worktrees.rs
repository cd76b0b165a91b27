use git_navigator::worktrees::{
    discover_worktrees, removal_plan, request_worktree_removal, worktree_records,
    DiscoveredWorktree, RemovalError, RemovalPlan, RemovalRefusal, WorktreeError,
};
use git_navigator::model::Worktree;

const PORCELAIN: &str = "worktree /tmp/repo\nHEAD 0123456789abcdef0123456789abcdef01234567\nbranch refs/heads/main\n\nworktree /tmp/linked-worktree\nHEAD fedcba9876543210fedcba9876543210fedcba98\nbranch refs/heads/topic\n";

fn probe(records: Vec<git_navigator::worktrees::WorktreeRecord>, current: usize) -> Vec<DiscoveredWorktree> {
    records
        .into_iter()
        .enumerate()
        .map(|(index, record)| DiscoveredWorktree {
            record,
            is_current: index == current,
            is_dir: true,
            dirty: false,
        })
        .collect()
}

fn worktree() -> Worktree {
    Worktree {
        path: "/tmp/linked".into(),
        branch: "topic".into(),
        head: "12345678".into(),
        dirty: false,
        is_current: false,
        is_main: false,
        available: true,
        prunable_reason: None,
        locked_reason: None,
    }
}

#[test]
fn discovers_linked_worktrees() {
    let worktrees =
        discover_worktrees(probe(worktree_records(PORCELAIN), 0)).expect("worktrees should load");
    assert_eq!(worktrees.len(), 2);
    assert!(worktrees.iter().any(|worktree| worktree.is_current));
    assert!(worktrees.iter().any(|worktree| worktree.branch == "topic"));
}

#[test]
fn reads_records_with_short_heads_and_plain_branch_names() {
    let output = "worktree /a\nHEAD 0123456789\ndetached\n\nworktree /b\nbranch refs/heads/x\nprunable gitdir file points to non-existent location\nlocked  busy \n\nHEAD 99\n\n";
    let records = worktree_records(output);
    assert_eq!(records.len(), 2);
    assert_eq!(records[0].path, "/a");
    assert_eq!(records[0].head.as_deref(), Some("01234567"));
    assert_eq!(records[0].branch, None);
    assert_eq!(records[1].branch.as_deref(), Some("x"));
    assert_eq!(
        records[1].prunable_reason.as_deref(),
        Some("gitdir file points to non-existent location")
    );
    assert_eq!(records[1].locked_reason.as_deref(), Some("busy"));
}

#[test]
fn assembles_main_missing_and_detached_worktrees() {
    let records = worktree_records("worktree /a\nHEAD 0123456789\n\nworktree /b\nprunable gone\n");
    let found = vec![
        DiscoveredWorktree { record: records[0].clone(), is_current: false, is_dir: true, dirty: true },
        DiscoveredWorktree { record: records[1].clone(), is_current: true, is_dir: true, dirty: true },
    ];
    let worktrees = discover_worktrees(found).expect("two worktrees");
    assert!(worktrees[0].is_main && !worktrees[1].is_main);
    assert_eq!(worktrees[0].branch, "detached HEAD");
    assert_eq!(worktrees[0].head, "01234567");
    assert!(worktrees[0].dirty && worktrees[0].available);
    assert!(!worktrees[1].available && !worktrees[1].dirty);
    assert!(worktrees[1].is_missing());
    assert_eq!(worktrees[1].head, "");
}

#[test]
fn no_worktree_is_an_error() {
    assert_eq!(discover_worktrees(Vec::new()), Err(WorktreeError::NotAWorktree));
}

#[test]
fn protected_worktrees_are_never_offered_for_cleanup() {
    let mut current = worktree();
    current.is_current = true;
    assert_eq!(request_worktree_removal(&current), Err(RemovalRefusal::Current));
    let mut main = worktree();
    main.is_main = true;
    assert_eq!(request_worktree_removal(&main), Err(RemovalRefusal::Main));
    let mut locked = worktree();
    locked.locked_reason = Some(String::new());
    assert_eq!(
        request_worktree_removal(&locked).unwrap_err().text(),
        "Cannot remove a locked worktree"
    );
    locked.locked_reason = Some("busy".into());
    assert_eq!(
        request_worktree_removal(&locked).unwrap_err().text(),
        "Cannot remove a locked worktree: busy"
    );
    let mut dirty = worktree();
    dirty.dirty = true;
    assert_eq!(request_worktree_removal(&dirty), Err(RemovalRefusal::Dirty));
}

#[test]
fn clean_worktrees_need_confirmation() {
    let confirmation = request_worktree_removal(&worktree()).expect("clean linked worktree");
    assert_eq!(confirmation.path, "/tmp/linked");
    assert_eq!(confirmation.branch, "topic");
    assert!(!confirmation.prune_only);
    let mut missing = worktree();
    missing.available = false;
    assert!(request_worktree_removal(&missing).expect("missing worktree").prune_only);
}

#[test]
fn removal_prunes_missing_worktrees_before_checking_dirt() {
    let mut missing = worktree();
    missing.available = false;
    missing.dirty = true;
    assert_eq!(removal_plan(&missing), Err(RemovalError::NotPrunable));
    assert_eq!(
        removal_plan(&missing).unwrap_err().text(),
        "Git has not marked the selected worktree as prunable"
    );
    missing.prunable_reason = Some("gitdir file points to non-existent location".into());
    assert_eq!(removal_plan(&missing), Ok(RemovalPlan::PruneMetadata));
    let mut dirty = worktree();
    dirty.dirty = true;
    assert_eq!(removal_plan(&dirty), Err(RemovalError::Dirty));
    assert_eq!(removal_plan(&worktree()), Ok(RemovalPlan::RemoveWorktree));
}

#[test]
fn removal_errors_explain_the_refusal() {
    assert_eq!(RemovalError::Locked(String::new()).text(), "the selected worktree is locked");
    assert_eq!(RemovalError::Locked("busy".into()).text(), "the selected worktree is locked: busy");
    assert_eq!(
        RemovalError::Current.text(),
        "cannot remove the worktree currently opened by git-navigator"
    );
}
