# OpenDraw

A raster drawing editor with layers. This crate is its core library, written
in Verus: the functions in `src/` carry contracts that Verus proves, except
for a handful of thin wrappers around standard-library calls (in
`src/support.rs`, and the text of an I/O error in `src/file/mod.rs`), whose
contracts are taken on trust.

## Layout

- `src/graphics`: colors and alpha compositing, the framebuffer, rectangles,
  and line rasterization.
- `src/document`: layered documents, their pixel buffers, flood fill and
  image import.
- `src/file`: the `.odraw` format (with a proof that reading gives back what
  was written), PNG and BMP export, CRC-32 and Adler-32, and choosing the
  export format from a path.
- `src/editor`: undo history, the editing session (layer edits, open, save,
  import, export), input handling, the new-document screen, layer
  thumbnails, keyboard shortcuts and notices.
- `src/ui`: immediate-mode widgets: focus order, buttons and text fields.
  Widgets draw their boxes only: captions, labels and the text caret need a
  font, and the color picker needs color-space conversion and sliders, none
  of which the project contains.
- `src/platform`: input types, Win32 message decoding and the routing of
  pointer sequences between pen input and mouse emulation.
- `src/support`: decimal notation and the few standard-library calls that
  the library trusts.
- `app/`: the host's side of the library, not yet a running program: files
  on disk, floating-point brush strokes and view geometry, and platform input
  events. No window backend is included, so the program only says so and
  stops.
- `tests/`: tests of the library, run against the compiled crate.
