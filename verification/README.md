# task_marshal

A broker that hands out and completes tasks kept in several sources: a local
markdown task file, BEADS (`bd`) and GitHub Issues (`gh`). The library under
`src/` is verified with Verus; `app/` is the `task-marshal` command around it.

## Layout

- `src/identity.rs` – source keys, `<source>:<native_id>` identifiers and their
  parser, identifier sort keys.
- `src/selection.rs` – the filter rules and the deterministic choice of the
  next task.
- `src/output.rs` – the plain-text task block, summary table and messages.
- `src/config.rs` – configuration discovery (walking up the directories),
  validation, path resolution inside the configuration directory, and the
  check that configured paths, once symbolic links are resolved, stay inside.
- `src/sources/` – the source registry; the local file format, listing and the
  completion edit (`local.rs`, with the proofs about the edit in
  `rewrite.rs`); the commands run for `bd` and `gh` and how their records map
  to tasks.
- `src/commands.rs` – which sources a command consults and how their answers
  combine.
- `src/text.rs` – character and sequence helpers shared by the above.
- `app/` – argument handling, file and process I/O, TOML and JSON decoding,
  error messages and exit codes (0 success, 1 no task for `next`, 2 error).
- `tests/` – tests of the library on concrete values.

## Proved properties

Besides each function's contract, `src/` proves, among others: completing a
local task and reading the file back gives the same tasks with that one done,
and completing it again changes nothing; an identifier's text parses back to
it; selection returns an eligible task with the least sort key and does not
depend on the order of the candidates; numeric identifiers of up to nine digits
sort by value; configured paths stay inside the configuration directory; the
priority order and the consulted sources hold no duplicates; and the task
block and summary table add no escape characters.
