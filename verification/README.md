# marten

A terminal diff viewer for reviewing your work before it becomes a commit or pull
request: staged, unstaged and untracked changes, single commits and commit ranges,
side by side or unified.

The crate is a verified library with a thin program around it.

- `src/` holds the library, written in Verus: the review model (files in tree order, the
  continuous review document and its row index, loads applied per generation), the
  panels' navigation, what the sidebar and the review panel show in their viewports,
  the overlays (command palette, file and commit finders, theme
  selector), ignore patterns, word-level change ranges, the editor command line, the
  configuration checks and the texts of the top bar.  Every function carries a
  contract; the laws the library keeps are proof functions next to the code they speak
  of.
- `app/` is the program: it parses the command line, reads the configuration file and the
  repository (git2), runs the background loads and the editor, chooses how changed lines
  are aligned side by side (a floating-point similarity score), and draws with ratatui.
- `tests/` exercise the library on concrete values.
