# rdu

A terminal disk-usage analyzer. The library under `src/` holds the parts that
decide things, each with a contract proved by Verus:

- `tree` — the directory tree, how a directory node is assembled from its
  subdirectories and files (totals, largest-first order), and the consistency
  of totals at every level.
- `scan` — what a directory walk does with each entry (skip other devices,
  count symlinks by length, files by allocated blocks, hard links once).
- `order` — the four sort modes and a stable, verified merge sort of a
  directory's children.
- `state` — the browsing state (position, selection, marks, deletion prompt)
  and every user action on it, as transitions of an abstract `AppView`.
- `input` — key and mouse events, and what the caller must do after each.
- `laws` — properties that span several actions.
- `text`, `size_text`, `layout` — shortening of names and paths, byte counts
  in human units, and the geometry of the screen.

`app/` is the program around it: argument handling, the terminal, the
filesystem walk (with `rayon`), drawing with `ratatui`, and the event loop.
