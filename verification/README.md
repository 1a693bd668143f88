# runcove_desktop

The decisions of the RunCove desktop backend, verified with Verus: the opt-in run log
archive (its file format, file names, bounded queue with counted losses, byte caps and
eviction order, startup sweep, slot and close accounting, backward paging), project
discovery (`pnpm-workspace.yaml` parsing, workspace pattern rules, launch profiles, the
bounded walk of a development root), and the rules behind the commands (settings values,
project edits, restores and group stops, starts and port conflicts, process identity).

- `src/` is the verified library. Every public function states what it returns in
  `ensures`; the laws that relate several operations are public proof functions.
- `tests/` runs the library on concrete values.
- `app/` is the unverified shell around it: the archive's files, index and pump thread,
  discovery on disk, and the calls that hand a port or a directory to the desktop.
