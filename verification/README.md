# librarian

The `librarian` command-line client for Qdrant-backed collections of books,
papers and code: query and read a collection through its daemon, measure
retrieval health, judge relevance, manage the fleet of per-collection servers,
snapshot and restore, and plan additions to the corpus.

## Layout

- `src/` — the library, verified with Verus. Each public function states in its
  contract what it returns; laws that span functions are public proof functions.
  - `plan`, `commit`, `undo`, `path` — where an added resource lands, what a
    commit writes and its rollback removes, and what an undo deletes.
  - `docs`, `ingest`, `audit` — source ids relative to the corpus root, content
    hashes, extractor and chunker selection, ingest outcomes, audit findings.
  - `fleet`, `snapshot`, `manifest` — port choice, start/stop decisions,
    registry reconciliation, snapshot retention, manifest status names.
  - `client_config`, `config`, `http`, `output`, `extract`, `health`, `judge`,
    `text` — precedence of flags, environment and config; daemon errors; colour
    and highlighting; extract windows; health and judge scoring helpers.
- `app/` — the binary: argument parsing, HTTP, SQLite, processes, files, and
  the floating-point aggregates, calling the library for its decisions. It
  offers `query`, `extract`, `health`, `judge`, `start`, `stop`, `restart`,
  `status`, `snapshot`, `restore` and `completions`. The `ingest`, `audit`,
  `remove` and `add` commands and `status --config` are absent: they need the
  extraction, embedding and indexing adapters and the batch runner, which are
  not among the dependencies. Their decisions (what to place, roll back, undo,
  audit and check before an ingest) are in the library nonetheless.
- `tests/` — tests of the library on concrete values.
