# eqgui

A live engineering-calculation notebook: cells of lines such as
`M = w * L^2 / 8 "N·mm"` are parsed, checked for physical dimensions,
evaluated, and shown as typeset equations (Typst), tables and plots. A
notebook can be exported to Word (`.docx`, with Office Math) and to HTML.

## Layout

- `src/` — the library, verified with Verus:
  - `ast.rs` — tokeniser and recursive-descent parser of expressions;
  - `document.rs` — lines of a document, tables gathered from table rows;
  - `units.rs` — dimension vectors, unit tables and the unit-string parser;
  - `eval.rs` — dimension rules of evaluation and symbolic differentiation;
  - `typst_codegen.rs`, `latex.rs`, `omml.rs` — math layout for Typst,
    LaTeX and Office Math;
  - `docx_writer.rs` — the Word package, written through the `zip` crate;
  - `export.rs` — what each compiled line becomes in a Word or HTML export
    (Base64 through the `base64` crate);
  - `notebook.rs` — the list of cells and which of them must be recompiled;
  - `xml.rs`, `text.rs` — escaping and text helpers.
- `app/` — the program: the window, floating-point evaluation, plots, Typst
  compilation and rasterisation.
- `tests/` — tests of the library.
