# git_navigator

A terminal navigator for the worktrees, commit history and changes of a Git
repository: one panel lists the worktrees (or the commit history), one the
changed files as a folder tree, and one the diff of the selected file, side by
side or unified.

The library under `src/` holds the navigator's logic, verified with Verus:

- `model`, `patch`, `changes`: changed files, hunks and diff rows, and the
  parsing of Git's status, numstat and patch output;
- `tree`, `files`, `tree_lines`: the folder tree of changed files, its
  filtering and the labels drawn for it;
- `diff_rows`, `change_state`, `search`, `highlight`, `unified`, `geometry`,
  `pointer`: the rows of the Diff panel, their selection, folding, search,
  layout and the rows under the mouse;
- `history`, `history_rows`, `history_marks`: the commit graph, branch tips
  and the comparison base of a branch;
- `arrangement`: how the screen is divided among the panels in each layout,
  with rails around an expanded panel, and where dialogs go;
- `worktrees`, `selection`, `navigation`, `keys`, `labels`, `palette`,
  `projection`, `schedule`, `editor`, `cli`, `text`: worktree cleanup, what
  stays selected across reloads, focus and layout, key bindings, titles,
  colours, refresh timing and shared text helpers.

`app/` is the program around it: command-line parsing, running Git, watching
the worktree for changes, and drawing with Ratatui. `tests/` runs the library
on concrete values.
