# Slate

A terminal Markdown note editor over a folder of notes (a "vault"): a file
tree in a sidebar, tabs, search in the open file, search across the vault, an
open-file dialog and Markdown highlighting.

The editor's logic is a library verified with Verus; the terminal program
around it only reads and writes files, draws, and passes keys in.

## Layout

- `src/` — the verified library.
  - `text.rs` — characters, substring search, line splitting, byte slices.
  - `paths.rs` — file names, extensions, which files are text, icons, languages.
  - `search.rs` — search in a file (hits, stepping) and across the vault.
  - `filetree.rs` — the sidebar tree: listing, ordering, expanding, collapsing.
  - `tabs.rs` — one open document and its search marks.
  - `app.rs` — the editor state: tabs, the open-file dialog, opening and saving.
  - `events.rs` — what each key does in each mode.
  - `highlight.rs` — Markdown line highlighting and search-hit highlighting.
  - `ui.rs` — what the screen shows, computed from the state.
- `tests/` — tests of the library on concrete values.
- `app/` — the terminal program: event loop, disk, drawing with ratatui.

## Run

```
slate            # the current directory as vault
slate ~/notes    # a given directory
```
