use git_navigator::files::filtered_tree;
use git_navigator::model::{ChangedFile, FileStatus, FileTreeRow, FileTreeRowKind};
use git_navigator::tree::build_tree;
use git_navigator::tree_lines::tree_label;

fn modified(path: &str) -> ChangedFile {
    ChangedFile::empty(path.into(), FileStatus::Modified)
}

fn builds_a_sorted_folder_tree() {
    let files = vec![modified("src/git/parser.rs"), modified("AGENTS.md"), modified("src/main.rs")];

    let tree = build_tree(&files);
    let visible = (0..tree.len()).collect::<Vec<_>>();
    assert_eq!(tree_label(&tree, 0, &visible), "├── AGENTS.md");
    assert_eq!(tree_label(&tree, 1, &visible), "└── src");
    assert!(tree[1].is_directory());
    assert_eq!(tree_label(&tree, 2, &visible), "    ├── git");
    assert_eq!(tree_label(&tree, 3, &visible), "    │   └── parser.rs");
    assert_eq!(tree_label(&tree, 4, &visible), "    └── main.rs");
}

#[test]
fn app_builds_a_sorted_folder_tree() {
    builds_a_sorted_folder_tree();
}

#[test]
fn mod_builds_a_sorted_folder_tree() {
    builds_a_sorted_folder_tree();
}

fn filtered_file_tree_keeps_matching_ancestors() {
    let files = vec![
        modified("src/git/parser.rs"),
        modified("src/main.rs"),
        modified("tests/test.rs"),
    ];
    let tree = build_tree(&files);
    let visible = filtered_tree(&tree, &files, "parser");
    let labels: Vec<String> = visible
        .iter()
        .map(|index| tree_label(&tree, *index, &visible))
        .collect();
    assert_eq!(labels, vec!["└── src", "    └── git", "        └── parser.rs"]);

    let all_rows = (0..tree.len()).collect::<Vec<_>>();
    assert_eq!(
        tree.iter()
            .map(|row| tree_label(
                &tree,
                tree.iter().position(|candidate| candidate.path == row.path).unwrap(),
                &all_rows
            ))
            .collect::<Vec<_>>(),
        vec![
            "├── src",
            "│   ├── git",
            "│   │   └── parser.rs",
            "│   └── main.rs",
            "└── tests",
            "    └── test.rs",
        ]
    );
}

#[test]
fn app_filtered_file_tree_keeps_matching_ancestors() {
    filtered_file_tree_keeps_matching_ancestors();
}

#[test]
fn mod_filtered_file_tree_keeps_matching_ancestors() {
    filtered_file_tree_keeps_matching_ancestors();
}

#[test]
fn a_lone_file_is_the_last_branch() {
    let tree = vec![FileTreeRow { path: "README.md".into(), kind: FileTreeRowKind::File }];
    assert_eq!(tree_label(&tree, 0, &vec![0]), "└── README.md");
    assert_eq!(tree_label(&tree, 0, &vec![]), "└── README.md");
}

#[test]
fn hidden_siblings_do_not_draw_branches() {
    let files = vec![modified("a/x.rs"), modified("a/y.rs"), modified("b.rs")];
    let tree = build_tree(&files);
    assert_eq!(tree.iter().map(|row| row.path.as_str()).collect::<Vec<_>>(), vec!["a", "a/x.rs", "a/y.rs", "b.rs"]);
    assert_eq!(tree_label(&tree, 1, &vec![0, 1, 2, 3]), "│   ├── x.rs");
    assert_eq!(tree_label(&tree, 1, &vec![0, 1]), "    └── x.rs");
}
