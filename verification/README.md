# symiosis

The core of a keyboard-driven notes application, written in Verus: every function in
`src/` carries a contract that the verifier proves.

## Layout

- `src/` — the verified library.
  - `store.rs` — the notes store: the notes directory, the notes index and the backup
    directory held in memory, with the commands that create, read, save, rename, delete and
    open notes. Each command records the file operations it decides, for the program to
    carry out on disk.
  - `index.rs`, `filemap.rs` — the notes index (one record per note, no name twice) and a
    directory of files (no path twice), each with a type invariant.
  - `search.rs`, `strings.rs` — hybrid search: candidate selection, title and content
    scoring, ranking, the query sanitiser and note titles.
  - `sync.rs` — loading a directory listing into the index, the quick check that the two are
    in step, and the full comparison report.
  - `backups.rs`, `versions.rs` — backup names and locations, pruning to the newest twenty
    of a kind, listing versions and deleted notes, and recovering them.
  - `config.rs`, `validation.rs`, `themes.rs`, `paths.rs` — the configuration file read
    field by field with defaults, its validation, theme lists and checks, and the
    application's paths.
  - `watcher.rs` — which file events concern notes, and the debouncing of repeated events.
  - `window.rs` — what the global shortcut and the tray icon do to the main window.
  - `renderer.rs`, `errors.rs`, `text.rs`, `ordering.rs` — note rendering, the error type,
    text helpers and stable sorting.
- `tests/` — tests of the library on concrete values.
- `app/` — a command-line program around the library: it reads the configuration and the
  notes directory, watches the directory for outside changes, answers commands read from
  standard input and performs the file operations that the library decides.

The laws of the library (what a read gives back after a write, that a refused save keeps
the file, that search results are ranked and bounded, that at most twenty backups of a kind
remain, that a rebuilt index is in step with its directory, and others) are stated as
public proof functions beside the code they speak of.
