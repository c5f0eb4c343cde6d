# desktop-ini

A verified library, and a small command line program around it, for the
`desktop.ini` files that Windows keeps in folders: their display name, tip,
icon, tags (Prop5) and a custom command that Explorer can hand the opening of
a folder to.

- `src/` is the library, written in Verus: the ini model and its text form,
  the named fields, tags, the argument and command-line grammars, the `set`
  command's edits, the decisions of `run` and `sync`, the registry entries of
  `setup`, and the encoding of the file in the system code page (through
  `encoding_rs`). Each function states what it does in its contract; the laws
  that tie the functions together (a read gives back what a write stored, the
  text read back gives the same values, tags stored are read back, ...) are
  proof functions.
- `app/` is the program: the command line (`clap`), the terminal, the file
  system, the registry and the elevated launch on Windows.
- `tests/` runs the library on concrete values.
