# kodeck

A terminal kanban board that lives next to your repositories. A workspace is a directory
with a shared configuration (columns, repositories, providers, annotation tags); the cards,
the UI state and the tracked code annotations are private files under the user's data
directory. The board can scan the workspace's repositories for tagged comments (`TODO`,
`FIXME`, ...) and turn them into cards.

The library in `src/` holds the logic, written in Verus and verified:

- `domain/` — identities, the shared configuration and its validation, the private files
  and their validation, cards, annotations.
- `storage/` — where every file goes (XDG directories, per-workspace paths), which files are
  private, and the bookkeeping of a temporary file until it replaces a document.
- `workspace/` — the registry of known workspaces, discovery decisions, repository
  detection, names and slugs, workspace errors.
- `scan/` — the tag pattern, the search of a file's lines, the order of findings, the
  reconciliation of findings with the tracked annotations and their cards, and the proof
  that reconciling again with the same findings changes nothing.
- `credentials.rs` — where a provider's token comes from (system store, then environment).
- `tui/` — key bindings, the board and its operations (focus, selection, moves, archive,
  columns, goto labels, forms), what the help, goto, detail and confirmation keys do, the
  annotation review, layout arithmetic, and the proof that a board written to its cards
  file loads back unchanged.
- `models/` — the first, simpler board model: named columns laid side by side.

Calls into outside crates (`uuid`, `regex`, `keyring`) go through small trusted wrappers
whose contracts are stated next to them.

`app/` is the program around the library: terminal events and drawing (ratatui, crossterm,
tui-input, ratatui-textarea), JSON files (serde), directory walking (ignore), parallel
scanning (rayon) and error reporting (color-eyre). `tests/` runs the library on concrete
values.
