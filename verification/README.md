# gish

A small terminal shell. Commands run in a pseudo-terminal; their output is
parsed for ANSI escape sequences and drawn on a virtual screen, which the
terminal UI then shows as styled text.

The library (`src/`) holds the logic, verified with Verus:

- `ansi`: the escape-sequence parser (`AnsiParser`), from bytes to cells.
- `sgr`: reading the parameters of Select Graphic Rendition sequences.
- `style`: text styles and what SGR attributes do to them.
- `screen`: the virtual screen (cursor, grid of cells) and reading it back
  as lines of styled spans.
- `status`: decoding the status-bar pieces the configuration script returns.
- `shell`: aliases, builtin commands, and the program and arguments a
  command line starts.
- `app`: input modes and keys, the command line and its history,
  scrolling, completion of commands and paths, pane locations and
  settings.
- `ui`: the decisions of drawing: where the search box stands (cut out with
  `tui`'s layout), each pane's border, and where the cursor is shown.
- `text`: string helpers (splitting, trimming, number reading).

The program (`app/`) is the terminal front end: the event loop, drawing with
`tui`, terminal control with `crossterm`, the Lua configuration through
`hlua`, and pseudo-terminals through `libc`.
