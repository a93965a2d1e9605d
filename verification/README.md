# seela

A tmux session manager: pick a project with fzf and open it as a tmux
session whose windows and panes follow the configuration.

- `src/` is the library, written in Verus and proved: reading `exec`
  entries, quoting for the shell, the tmux command lines, which session
  layout applies to a project, which directories are searched, and the
  step-by-step building of a session's windows and panes.
- `app/` is the program around it: the command line, reading the TOML
  file, logging, walking directories, and running fzf and tmux.
- `tests/` runs the library on concrete values.
