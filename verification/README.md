# herdr-worktree-sync

A herdr plugin that prepares a freshly created git worktree: it copies,
clones, or links local files from the source checkout, installs
dependencies, and runs per-repo hooks, in the fixed order
git update → pre hooks → copy → clone → symlink → install → post hooks,
stopping at the first failure.

The decisions are a library verified with Verus (`src/`); the program
around it (`app/`) reads herdr's payloads and the config files, and
performs what the library asks for.

- `src/lib.rs` — `run` and `sync_files`: the steps of a bootstrap for a
  configuration, and the laws about them (phase order, an empty
  configuration does nothing, a sync runs no commands, a successful run or
  sync shows exactly its enabled phases in its summary).
- `src/lifecycle.rs` — the steps, and `Bootstrap`, the state machine that
  takes each step's report and decides whether the run goes on, what it
  has done so far, and how it ends; it keeps the steps performed, so that
  fail-fast and the install list are stated over the whole run.
- `src/bootstrap.rs` — file-pattern checks, the filename glob, ordering and
  selecting matched entries, gitignored discovery, what copying or cloning
  does with each entry and how it is counted, virtual-environment
  relocation, install detection, hook and install planning, and what a
  finished command means.
- `src/config.rs` — the configuration as plain values, and the checks on a
  configured repo config path.
- `src/notify.rs`, `src/report.rs` — the end-of-run toast and the full
  failure report.
- `src/paths.rs`, `src/text.rs`, `src/failure.rs` — Unix paths as text,
  text helpers, and the library's error chain.
- `src/action.rs` — the manual `sync` action: its target, and the run of
  file operations on it.
- `app/` — `main`, config and payload parsing, and the file system,
  process, and herdr calls.
