# gest

The core of gest, a task tracker for phased, parallel work by AI agents,
written in Verus: every function in `src/` carries a contract that Verus
proves.

## Layout

- `src/primitives/` — ids (the `k`–`z` alphabet, prefixes), statuses,
  priorities and entity kinds, with their round-trip laws.
- `src/search_query.rs`, `src/search.rs`, `src/search_sql.rs` — the search
  grammar, in-memory matching, and the parameterised SQL of a database search.
- `src/orchestration.rs` — phases of an iteration: progress, the next task to
  claim, and advancing a phase.
- `src/resolve.rs`, `src/fs.rs` — resolving an id prefix among rows or files.
- `src/meta.rs` — metadata trees: dot paths, scalars, flattening.
- `src/store.rs`, `src/model/` — file layout of the local store, entity files
  with front matter, and the records read from database rows.
- `src/delete.rs`, `src/transaction.rs`, `src/purge.rs` — cascade deletes and
  their audit payloads, undo, and purge scans.
- `src/update_sql.rs`, `src/relationships.rs`, `src/iteration_repo.rs` —
  statements and row handling of the repositories.
- `src/web.rs`, `src/watcher.rs` — the decisions of the web views and of the
  file watcher's debounce loop.
- `tests/` — tests of the library on concrete values.
- `app/` — a small command-line front end over the library.
