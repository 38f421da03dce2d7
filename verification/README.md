# wc-storage

Storage logic of the wallpaper console, written in Verus and proved against
its specifications.

- `src/` — the verified library: flat-file line lists (`flat`), text and
  path helpers (`text`, `paths`, `order`), the error type (`error`), and
  under `sqlite/` the SQL the storage layer runs and the rules it applies to
  what SQLite returns: schema normalization and checks, display-state rules,
  the library browser's predicate, cursor and fingerprint, revision
  observation, backup and repair checks, flat-file import and export, scan
  snapshot validation and timestamps.
- `app/` — plain Rust around the library: runtime connections under their
  lock files, schema creation and migration, verification, backup, repair
  and restore, browser and legacy pages, reading and writing flat files,
  running SQLite statements with `rusqlite`, and the serde copies of the
  types that are stored as JSON. Where a step needs the scanner's path rules
  or the parsed configuration, which live in other crates of the
  workspace, the caller passes them in.
- `tests/` — tests of the library on concrete values.

Each public function states its result in `ensures` over spec functions;
the `lemma_*` proof functions state properties that span calls: a runtime
file reads back as the lines written to it, deduplication is idempotent,
applying the same wallpaper twice leaves the history as once, escaping is
reversible and doubles each quote and nothing else, any chain of
formatting edits (white space between tokens, comments, the letter case
outside quoted and bracketed tokens) leaves the normalized schema unchanged, full-text queries carry no
query syntax, an exported history verifies without drift, day counts follow
the Gregorian calendar with every day inside its month, and a cursor token
decodes to the bytes it encodes.
