# ravel

A formatter, linter and language server for R, with its core written in
Verus and proved against its contracts.

## Layout

- `src/` — the verified library.
  - `parser/` — a lossless lexer and parser: the concrete syntax tree spells
    the input exactly; bracket runs such as `]]` are split where they close
    two different brackets.
  - `syntax.rs`, `ast.rs` — the tree and typed views of its nodes.
  - `formatter/` — each construct becomes a layout document (`ir.rs`),
    resolved against the line width by a Wadler-style printer
    (`printer.rs`); `rules/` holds the layout of operators, control flow,
    argument lists and function definitions; `check.rs` and `output.rs`
    decide `format --check` and `format --verify`.
  - `linter.rs` — the assignment-spacing rule and the lint report.
  - `config.rs` — the configuration values, their validation and which
    configuration file applies.
  - `lsp.rs` — the text edits that turn a document into its formatted form.
- `app/` — the `ravel` command around the library: argument parsing,
  files, the TOML configuration reader, file discovery, the incremental
  parse cache and the language server runtime.
- `tests/` — tests of the library.
