# reading_cli

A terminal novel reader: it pages a `.txt` book (UTF-8, UTF-8 with a BOM,
or GBK) to the size of the terminal, keeps a shelf of books with their reading
positions, highlights words with a text analyzer, and has a "cover mode" that
replays fake terminal activity.

The crate has two parts.

- `src/` is the library, written in Verus: page layout and the page index,
  reading the text by byte offset, the shelf, the highlight pipeline (word
  alignment, tag mapping, named-entity merging, chunk planning, the
  annotation cache, highlighted rendering), the cover terminal and its
  activity modules, and the reader's screen state and key handling. Every
  function there carries a contract that Verus proves; calls into
  `unicode-width`, `encoding_rs`, `jieba-rs`, `rand` and `time` go through
  small trusted wrappers whose contracts are documented where they stand.
- `app/` is the program around it: the command line, files on disk, the LTP
  models, the terminal and the drawing with `ratatui`, and the formatting of
  figures that use floating point.

`tests/` exercises the library with concrete values.
