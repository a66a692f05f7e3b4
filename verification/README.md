# prio

prio keeps a work branch that is the merge of several feature branches. Merges,
cherry-picks and rebases all run in a second clone, prio-mc; the work clone only
receives finished results. Conflicts are resolved in prio-mc, and its post-commit
hook continues the interrupted operation.

## Layout

- `src/` is the library, verified with Verus: the repository state and its
  storage paths, parsing of git and gh output, the status view, the apply and
  merge-order logic, moves, copies, stacks, sync, abort and recover, the
  post-commit continuations, hooks and the command line's decisions. Each public
  function states its result in `ensures`; the `law_*` proof functions state the
  properties that relate several calls.
- `src/json.rs`, `src/util.rs` and `src/logger.rs` hold the few trusted items:
  calls into `serde_json`, the clock and standard error.
- `app/` is the program around the library: argument parsing (clap), running
  git and gh, reading and writing the JSON state files (serde, tempfile, fs2),
  the GitHub user search (reqwest) and printing.
- `tests/` runs the library on concrete values.
