# bakehouse

The core of Bakehouse, a macOS workbench for SQL Server that runs its own
instances in lightweight containers: the logic is a Verus-verified library,
and a thin shell drives processes, files, the keychain and the database.

## Layout

- `src/` — the verified library.
  - `sql/` — `GO` batch splitting, query execution (row cap, progress,
    messages, the per-batch event state machine), sessions, object
    metadata and scripting (dependency-ordered script generation).
  - `results/` — result-set buffers, the store that holds them by id,
    cell rendering, binary row windows, TSV copy and CSV export.
  - `csvimport/` — CSV decoding, delimiter/header/type inference, SQL
    literals, the rows of a file as `INSERT` values, and batched `INSERT`s.
  - `instances/` — instance definitions, the registry of instances and
    their states, the start sequence as a state machine, compose export,
    the connection manifest and generated passwords.
  - `runtime/` — the bundled `container` CLI: command lines and what its
    output (including its JSON reports) means.
  - `bak.rs` — reading backup sets, restore plans, backups.
  - `history.rs`, `events.rs`, `setup.rs`, `listing.rs`, `paths.rs`,
    `text.rs`, `error.rs` — supporting pieces.
- `tests/` — tests of the library on concrete values.
- `app/` — the unverified shell: CLI processes, files, SQLite history,
  keychain, serialization copies of the library's types, the flows that
  alternate database or runtime work with the library's decisions, and
  the few places that compare or print floating-point values.

Calls into outside crates (`csv`, `encoding_rs`, `chrono`, `uuid`, `rand`,
`serde_json`)
and into parts of std that Verus does not specify go through small trusted
wrappers whose contracts say what the library relies on.
