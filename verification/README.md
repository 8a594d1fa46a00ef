# dusk

An interactive disk usage analyzer for the terminal: scan a directory, browse the
result as a tree, a treemap or a bar chart, sort, search, filter, bookmark
directories and delete entries.

The decisions of the program are a library verified with Verus; the terminal,
the file system and the scanner threads stay outside it.

## Layout

- `src/` — the verified library (`dusk`)
  - `model/` — the disk usage tree (`DiskNode`), its orderings and counts, file
    metadata formatting
  - `scanner/` — turning scanned entries into a tree, hard-link accounting, scan
    progress
  - `config/` — the bookmark store
  - `tui/` — the state machines behind the views: tree rows, bar and treemap
    navigation, overlays (search, filter, delete, bookmarks), text input, and the
    application's key handling (`tui/app.rs`)
  - `strings.rs` — text helpers and the calls into outside crates that compute
    on text
- `app/` — the program: command line, terminal drawing (ratatui), the event
  loop, directory walking, bookmark files, file information and deletion
- `tests/` — tests of the library

Each public function of the library states what it returns or changes in its
`requires` / `ensures`; laws that span several functions are public proof
functions (`lemma_*`).
