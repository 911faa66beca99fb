# toss

A terminal pager whose core is written in Verus: the logic of the pager is
executable Rust with contracts that Verus proves.

- `src/` is the verified library: the ANSI-aware line model and its wrapping,
  the document, its line index, and the line caches kept by line number or by
  byte position, the page layout with its pinned header and sticky section
  heading, scrolling, searching, the search input editor, the status line,
  the frame diffing that keeps terminal output small, the key bindings as a
  function from state and key to action, and the command line grammar.
- `app/` is the program around it: argument handling, reading files and
  standard input, the terminal (through `crossterm`), the event loop and the
  scroll animation.
- `tests/` runs the library on concrete inputs.

Outside crates are called from `src/` through small trusted wrappers whose
contracts are stated next to them: `regex` for search patterns,
`unicode-width` for character widths, `lexopt` for splitting the command line
and `ansi-control-codes` for one of the two line parsers.
