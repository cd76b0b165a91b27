use git_navigator::history::{
    history_needs_reload, BranchTip, BranchTips, base_ref_candidates, base_tip_hashes, branch_tips, commit_history, common_git_dir,
    first_comparison_step, head_hash, history_branch_ref, history_comparison_base,
    history_range_commits_from_base, is_ancestor, merge_probes, resolve_base_ref, ComparisonStep,
};
use git_navigator::history_rows::{display_rows_for, selectable_indices, HistoryRow};
use git_navigator::model::Commit;

fn commit(hash: &str, parents: Vec<&str>, graph: Vec<&str>) -> Commit {
    Commit {
        hash: hash.into(),
        parents: parents.into_iter().map(String::from).collect(),
        short_hash: hash.into(),
        subject: hash.into(),
        graph: graph.into_iter().map(String::from).collect(),
    }
}

#[test]
fn parses_git_graph_lines_into_commit_rows() {
    let output = "* \u{1}head\u{0}base\u{0}head\u{0}head commit\n| * \u{1}side\u{0}head\u{0}side\u{0}side commit\n|/  \n* \u{1}base\u{0}\u{0}base\u{0}base commit\n";
    let commits = commit_history(output);

    assert_eq!(commits.len(), 3);
    assert_eq!(commits[0].graph, vec!["● "]);
    assert_eq!(commits[0].parents, vec!["base"]);
    assert_eq!(commits[1].graph, vec!["│ ● "]);
    assert_eq!(commits[1].parents, vec!["head"]);
    assert_eq!(commits[2].graph, vec!["│╱  ", "● "]);
    assert!(commits[2].parents.is_empty());
}

#[test]
fn commit_lines_with_too_few_fields_are_skipped() {
    let output = "* \u{1}only\u{0}two\n* \u{1}ok\u{0}p1 p2\u{0}ok\u{0}subject with\u{0}nul\n";
    let commits = commit_history(output);
    assert_eq!(commits.len(), 1);
    assert_eq!(commits[0].hash, "ok");
    assert_eq!(commits[0].parents, vec!["p1", "p2"]);
    assert_eq!(commits[0].subject, "subject with");
    assert_eq!(commits[0].graph, vec!["● "]);
}

#[test]
fn groups_local_and_remote_branch_tips_by_commit() {
    let head = "0123456789abcdef0123456789abcdef01234567";
    let output = format!(
        "{head}\trefs/heads/feature\n{head}\trefs/heads/main\n{head}\trefs/remotes/origin/HEAD\n{head}\trefs/remotes/origin/feature\n"
    );
    let tips = branch_tips(&output);

    assert_eq!(
        tips.get(head),
        Some(&vec![
            "feature".to_string(),
            "main".to_string(),
            "origin/feature".to_string()
        ])
    );
}

#[test]
fn branch_tips_skip_lines_that_name_no_branch() {
    let output = "aaa\trefs/tags/v1\nno tab here\nbbb\trefs/heads/topic\naaa\trefs/heads/x\n";
    let tips = branch_tips(output);
    assert_eq!(tips.tips.len(), 2);
    assert_eq!(tips.get("aaa"), Some(&vec!["x".to_string()]));
    assert_eq!(tips.get("bbb"), Some(&vec!["topic".to_string()]));
    assert_eq!(tips.get("ccc"), None);
}

#[test]
fn inserts_branch_labels_without_making_them_selectable() {
    let commits = vec![commit("tip", vec![], vec!["│╲  ", "● "])];
    let tips = branch_tips("tip\trefs/heads/feature\n");

    assert_eq!(
        display_rows_for(&commits, &tips, Some("tip")),
        vec![
            HistoryRow::Graph("│╲  ".into()),
            HistoryRow::Wip { graph: "● ".into() },
            HistoryRow::BranchLabel {
                graph: "● ".into(),
                names: vec!["feature".into()],
                connected: false,
            },
            HistoryRow::Commit { index: 0 },
        ]
    );
}

#[test]
fn connects_branch_labels_when_a_newer_commit_has_the_tip_as_parent() {
    let commits = vec![
        commit("child", vec!["tip"], vec!["● "]),
        commit("tip", vec!["base"], vec!["│  ", "● "]),
    ];
    let tips = branch_tips("tip\trefs/heads/feature\n");

    assert!(display_rows_for(&commits, &tips, None).iter().any(|row| {
        matches!(
            row,
            HistoryRow::BranchLabel {
                connected: true,
                ..
            }
        )
    }));
}

#[test]
fn wip_comes_first_when_no_commit_is_the_head() {
    let commits = vec![commit("a", vec![], vec![]), commit("b", vec![], vec!["● "])];
    let tips = branch_tips("");
    let rows = display_rows_for(&commits, &tips, Some("elsewhere"));
    assert_eq!(
        rows,
        vec![
            HistoryRow::Wip { graph: "●".into() },
            HistoryRow::Commit { index: 0 },
            HistoryRow::Commit { index: 1 },
        ]
    );
    assert_eq!(selectable_indices(&rows), vec![0, 1, 2]);
}

#[test]
fn branch_labels_are_not_selectable() {
    let commits = vec![commit("tip", vec![], vec!["│╲  ", "● "])];
    let tips = branch_tips("tip\trefs/heads/feature\n");
    let rows = display_rows_for(&commits, &tips, Some("tip"));
    assert_eq!(selectable_indices(&rows), vec![0, 1]);
}

#[test]
fn head_and_git_dir_output_is_trimmed() {
    assert_eq!(head_hash("abc123\n"), "abc123");
    assert_eq!(common_git_dir("  /repo/.git \n"), "/repo/.git");
}

#[test]
fn base_tips_are_read_only_when_resolved() {
    assert_eq!(
        base_tip_hashes(true, "aaa\n", false, "fatal"),
        (Some("aaa".to_string()), None)
    );
    assert_eq!(base_tip_hashes(false, "", true, " bbb "), (None, Some("bbb".to_string())));
}

#[test]
fn base_candidates_include_the_origin_copy() {
    assert_eq!(base_ref_candidates("main"), vec!["main", "origin/main"]);
    assert_eq!(base_ref_candidates("upstream/main"), vec!["upstream/main"]);
    let candidates = base_ref_candidates("main");
    assert_eq!(resolve_base_ref(&candidates, &vec![false, true]), Some("origin/main".to_string()));
    assert_eq!(resolve_base_ref(&candidates, &vec![true, true]), Some("main".to_string()));
    assert_eq!(resolve_base_ref(&candidates, &vec![false, false]), None);
}

#[test]
fn range_commits_are_trimmed_distinct_and_ordered() {
    assert_eq!(
        history_range_commits_from_base("b\n a \n\nb\nc\n"),
        vec!["b".to_string(), "a".to_string(), "c".to_string()]
    );
    assert!(history_range_commits_from_base("").is_empty());
}

#[test]
fn branch_ref_prefers_local_branches_other_than_the_base() {
    let output = "refs/remotes/origin/topic\nrefs/heads/main\nrefs/heads/topic\n";
    assert_eq!(
        history_branch_ref(output, "main", "main"),
        Some("refs/heads/topic".to_string())
    );
    let remote_only = "refs/remotes/origin/main\nrefs/remotes/origin/topic\n";
    assert_eq!(
        history_branch_ref(remote_only, "main", "main"),
        Some("refs/remotes/origin/topic".to_string())
    );
    assert_eq!(history_branch_ref("refs/heads/main\n", "main", "main"), None);
}

#[test]
fn ancestry_is_an_exit_code_of_zero() {
    assert!(is_ancestor(Some(0)));
    assert!(!is_ancestor(Some(1)));
    assert!(!is_ancestor(None));
}

#[test]
fn comparison_base_checks_each_merged_parent_in_order() {
    let probes = merge_probes("m1\0p1 q1 r1\nbad line\nm2\0p2 q2\nm3\0\n");
    assert_eq!(probes.len(), 3);
    assert_eq!(probes[0].first_parent, "p1");
    assert_eq!(probes[0].merged_parent, "q1");
    assert_eq!(probes[1].merged_parent, "r1");
    assert_eq!(probes[2].first_parent, "p2");

    assert!(matches!(first_comparison_step(&probes), ComparisonStep::CheckAncestor(0)));
    assert!(matches!(
        history_comparison_base(&probes, 0, false),
        ComparisonStep::CheckAncestor(1)
    ));
    match history_comparison_base(&probes, 1, true) {
        ComparisonStep::Found(hash) => assert_eq!(hash, "p1"),
        _ => panic!("a merged parent that holds the branch gives its first parent"),
    }
    assert!(matches!(history_comparison_base(&probes, 2, false), ComparisonStep::MergeBase));
    assert!(matches!(first_comparison_step(&Vec::new()), ComparisonStep::MergeBase));
}

#[test]
fn history_reloads_when_missing_or_when_tips_or_head_move() {
    let tips = |hash: &str, name: &str| BranchTips {
        tips: vec![BranchTip { hash: hash.into(), names: vec![name.into()] }],
    };
    let commits = vec![commit("a", vec![], vec!["*"])];
    let head = Some("a".to_string());
    assert!(!history_needs_reload(&commits, &tips("a", "main"), &tips("a", "main"), &head, &head));
    assert!(history_needs_reload(&Vec::new(), &tips("a", "main"), &tips("a", "main"), &head, &head));
    assert!(history_needs_reload(&commits, &tips("a", "main"), &tips("b", "main"), &head, &head));
    assert!(history_needs_reload(&commits, &tips("a", "main"), &tips("a", "dev"), &head, &head));
    assert!(history_needs_reload(&commits, &tips("a", "main"), &tips("a", "main"), &head, &None));
    assert!(history_needs_reload(
        &commits,
        &tips("a", "main"),
        &tips("a", "main"),
        &head,
        &Some("b".to_string())
    ));
}
