//! Verified core of a Git worktree navigator.
pub mod arrangement;
pub mod change_state;
pub mod changes;
pub mod cli;
pub mod diff_rows;
pub mod editor;
pub mod files;
pub mod geometry;
pub mod highlight;
pub mod history;
pub mod history_marks;
pub mod history_rows;
pub mod keys;
pub mod labels;
pub mod model;
pub mod navigation;
pub mod palette;
pub mod patch;
pub mod projection;
pub mod pointer;
pub mod schedule;
pub mod search;
pub mod selection;
pub mod text;
pub mod tree;
pub mod tree_lines;
pub mod unified;
pub mod worktrees;
