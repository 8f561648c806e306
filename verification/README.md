# p2m

PDF to Markdown conversion. The library in `src/` holds the text,
quality, table and markdown logic of the converter, each function with
its behaviour stated as a `requires`/`ensures` contract and proved.

## Layout

- `src/text/` — character classes, trimming, splitting and joining,
  ligature expansion and NFKC normalisation, right-to-left and CJK
  detection, PDF text-string decoding, font-name classification.
- `src/convert.rs` — whole-document conversion: page selection, page
  assembly with optional page-break markers, and clean-up.
- `src/pdf/` — PDF header validation and file-type hints, loading through
  `lopdf`, the document title, reading objects, glyph names,
  `/Differences` encodings, decoding of string operands, CID width
  arrays, decoded-text scoring and the CMap decision cache, link
  annotations and form fields, and `XObject` classification.
- `src/quality.rs` — garbage-text and encoding-issue detection.
- `src/tables/` — union-find clustering, table validation and the
  heuristic checks on cell grids, and Markdown table rendering.
- `src/markdown/` — dot-leader and heading analysis, normalisation of
  lines for comparison, continued tables, and the final clean-up pass
  (dot leaders, hyphenation, page numbers, URLs, spaces, blank lines).
- `src/types.rs`, `src/error.rs` — page numbers, content kinds, lines of
  text with their bold/italic formatting, the converted document, and
  errors.
- `tests/` — tests of the library.
- `app/main.rs` — the command-line program: argument parsing, file I/O,
  options, and error messages; `app/fonts.rs` and `app/annotations.rs`
  read the real-valued numbers of width arrays and annotation rectangles.

Positioned-text layout analysis (columns, headings, lists, tables, bold
and italic from font metrics, repeated headers and footers) works on
floating-point page geometry and is not part of the verified library. As a
result `convert_bytes` and `convert_bytes_with` build each page from the
plain text that `lopdf` extracts for it (`Document::extract_text_with_limit`)
and then assemble and clean it up: their Markdown differs from what a
layout-aware converter gives for nearly every PDF, and carries no headings,
lists, tables or emphasis.
