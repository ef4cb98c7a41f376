# pdft

A terminal PDF viewer and editor: view pages as images or as text laid out on a
character grid, mark pages for deletion, assign pages to output groups, save the
groups as separate files, merge documents and search text. Command-line tools
print information about a PDF, merge, split, delete pages and print a page's text.

The library in `src/` is written in Verus and proved against its contracts:

- `model/` — documents, the page list with its undo history (`workspace`), PDF
  dates and metadata text, the form field tree and how a field's value is written
  (`form`), which annotations are comments (`comments`), text and signature stamps
  and their undoing (`stamp`: where the font or image is registered, how the page's
  contents grow), and the reads and writes of lopdf objects they are built from
  (`objects`);
- `app.rs` — the viewer's state: navigation, selection, groups, saving;
- `cli.rs` — the command model and the page-range language (`1-3,5,7-9`);
- `ops/` — which pages a delete, a split or a grouped save keeps, and merging
  documents (the pages of each following those of the ones before, in order); a
  deletion is refused exactly when the page tree would make lopdf loop or overflow;
- `render/` — the image cache (an LRU of the `lru` crate) and the text layout:
  glyphs in fixed-point coordinates, snapped to the page's line grid, grouped into
  words and lines, and laid out on a grid; text search over the same glyphs;
- `tui/` — the key handler (a state machine that hands file work back to its
  caller), the input dialog, the status bar, the page list, thumbnail layout and
  search highlighting;
- `paths.rs`, `text.rs` — small string and path helpers.

Each module states its laws as public proof functions (`law_...`).

`app/` is the program around the library: argument parsing (clap), terminal
I/O (crossterm, ratatui, ratatui-image), PDF parsing and rendering (lopdf, hayro),
and the floating-point geometry of images and PDF objects.
