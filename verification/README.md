# slt

An immediate-mode terminal UI library whose widget logic is verified with
Verus. Each frame, UI code calls widget functions on a `Context`; they read
the frame's input events, claim the ones they handle, update the caller's
widget state and append drawing commands to the frame's draw list. The
contracts state, over spec models of that list, of the events and of the
widget states, which events each widget claims, how it changes its state,
and what it draws: command by command for most widgets, line by line or
block by block for markdown, and only the
enclosing structure for what a caller's closure draws. What the standard
library or an outside crate computes (text width, grapheme clusters,
lowercasing, path parents, QR modules, a duration's milliseconds) enters the
contracts through named results or not at all; those calls are listed as
trusted in the source.

Layout:

- `src/` — the verified library: events (`event`), styles and themes
  (`style`), draw commands (`command`), text width and segmentation
  (`unicode`), and the `context` module with its widgets: text and layout,
  status widgets, inputs and forms, lists, radio groups, tabs, checklists,
  paginators, trees, file browsers, command palettes, grids, calendars, logs, breadcrumbs, markdown and streaming
  markdown, QR codes, key chords.
- `tests/` — tests of the library on concrete frames.
- `app/` — terminal glue: reading crossterm input as library events,
  opening activated links, reading directories for the file browser, and the
  floating-point parts (scrollbar geometry, a number field).
