# tindy

A small terminal text editor. `tindy NAME` edits `NAME.md`.

- `src/` is the verified library: the lines of the document and their cursor
  (`line`, `line::list`), loading and saving text (`text`), what is drawn on
  the screen (`cursor`, `draw`, `line::list`), what each key does
  (`keys`, `handle::movement`, `handle::action`, `mode::insert`,
  `mode::escape`) and the laws that hold across edits (`laws`).
  Each handler changes the document and returns the escape sequences to draw;
  each has a checker (`can_…`) that tells whether its precondition holds.
  Cursor positions and line lengths count bytes of the UTF-8 text, as a
  `String` does; a line is held as its characters with its byte length beside them.
- `app/` drives the terminal: raw mode through `libc`, reading keys, reading and
  writing the file, and writing what the library returns.
- `tests/` runs the library on concrete documents.
