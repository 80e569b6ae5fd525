# herdr_tiling

The verified core of a Herdr plugin that tiles a tab's panes as a binary
space partition: tmux-style layout presets, Hyprland-style directional pane
moves, split toggling, and a journaled plan that rebuilds a tab's pane tree
through Herdr's socket API and can be recovered after an interruption.

- `src/` is the library, verified with Verus. Split ratios are carried as
  the bit patterns of their single-precision values; `rounding` computes,
  with integers only, what single-precision arithmetic gives on them.
  `rebuild` is a state machine: it names each Herdr call or journal write to
  make next and takes back its outcome.
- `app/` is the program around it: arguments, environment, the Unix socket,
  JSON, the journal, lock and configuration files.
- `tests/` runs the library on concrete values.
