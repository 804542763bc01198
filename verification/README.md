# redo

An implementation of the `redo` build system whose decision logic is written
in Verus and proved against its contracts.

## Layout

- `src/` — the verified library.
  - `text` — character-level string helpers and their specifications
    (split, join, trim, integer formatting and parsing).
  - `helpers`, `cycles` — integer parsing and the cycle list carried in the
    environment.
  - `state` — the per-file record, stamps, overrides, path normalization,
    relative paths, database write bookkeeping, and the per-target locks with
    the `fcntl` requests they send on the lock file.
  - `deps` — the dirtiness check over the dependency graph.
  - `paths` — the `.do` file search order.
  - `options` — the option-spec parser and the parsed option dictionary.
  - `jobserver` — token accounting, descriptor announcements in `MAKEFLAGS`,
    and the state machine that waits for a token.
  - `env`, `logs`, `logview` — the environment model, log line formatting and
    the `redo-log` line decisions.
  - `builder`, `commands` — the build steps (target checks, argv and
    environment of a `.do` run, output checks) and the small commands.
- `app/` — the program around the library: argument handling, the SQLite
  database, opening the lock file, processes, pipes and terminal output.
- `tests/` — tests of the library on concrete values.
