# rusty_library_shrinker

A comic-book shrinker: it takes CBZ, CBR, PDF and EPUB files, converts their
pages to WebP and writes a CBZ, keeping the result only when it saves enough
space.

- `src/` is the verified library: recognising comic files, the search
  pattern, which extractors to try, where ZIP entries go, EPUB image
  selection and naming, PDF page buffers and names, image checks and routes,
  decoding and resizing pages (through the `image` crate) and assembling
  JPEG 2000 pages, the order of files in a CBZ, the savings threshold, the placement of the
  output file per file mode, the per-file processing steps as a state
  machine (`job`), and the run summary. Every public function carries a
  contract proved by Verus.
- `app/` is the command-line program around it: arguments, logging, progress
  bars, the thread pool, the calls that read and write files (archives,
  images, the Pdfium library), and the floating-point steps (the target
  width from the aspect ratio, WebP encoding quality, PDF page sizes).
- `tests/` runs the library on concrete values.
