# Petir

Core of the Petir terminal emulator, verified with Verus.

`src/` is the library. Every function in it carries a contract that Verus
proves:

- `cell`, `grid` — cells, the visible grid and its scrollback: printing,
  wrapping, line feeds, erasing, inserting and deleting, resizing.
- `term` — what each parsed control function does to the terminal (cursor
  motion, SGR colours, saved cursor, title, bell, DCS Sixel collection) and
  the cutting of Kitty graphics strings out of the raw byte stream.
- `image` — the Sixel and Kitty graphics decoders, with base64.
- `search` — case-insensitive search over scrollback and screen.
- `selection` — mouse selection and what Ctrl+C copies.
- `pane` — the split-pane tree and the tab bookkeeping.
- `keys`, `menu`, `config`, `render` — key decisions, menu entries, the
  configuration the logic reads, and what the renderer draws, in cells.

The public `law_*` proof functions state properties that hold across calls.

`app/` is the program around the library: configuration loading, the shell
on a pseudo-terminal, the clipboard, driving the escape-sequence parser, and
pixel geometry.
