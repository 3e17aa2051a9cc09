# velotype

The verified core of the Velotype Markdown editor, written in Verus.

`src/` holds the library. Every function in it is checked by Verus against
its `requires`/`ensures` contract, except a few trusted wrappers whose
contracts are assumed: `char::is_alphanumeric` and `String::push` from std,
`serde_json::from_str` for reading JSON text, and pulldown-cmark's parser and
HTML writer for rendering Markdown. Each is marked
`#[verifier::external_body]` and documents what it claims.

- `text`, `lines`, `paths`: characters, lines, UTF-8 widths and path
  components, modelled as sequences of Unicode scalar values.
- `paste`: which pasted lines become separate blocks.
- `recent`: the recent-file history (normalization, recording, removal,
  the history file's text).
- `config`: configuration directories, file-name stems, JSONC comments,
  reading configuration files as JSON.
- `json`: JSON values and the pruning, overlay and schema filtering used
  when importing theme packs.
- `theme`: font weights, the theme catalog, imported themes and which theme
  is active.
- `shortcuts`: the keyboard shortcut table and how user overrides and
  clashes are resolved.
- `export`: Markdown rewriting and the HTML page for export. No HTML
  sanitizer or LaTeX renderer is part of the library: raw HTML blocks
  (other than the export's own comment blocks) and math are exported
  escaped.
- `ime`, `table`, `selection`: input-method offsets, table cell navigation
  and selections across blocks.

`app/` is a small command-line program around the library (file system,
platform directories, writing JSON). `tests/` exercises the library.
