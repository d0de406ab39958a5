# kotlin_lsp

The verified core of a Kotlin/Java language server, written in Verus.

## Layout

- `src/syntax.rs` — tree-sitter trees as plain values: the preorder node list
  with subtree sizes, the Kotlin and Java parses (tree-sitter calls whose
  results the contracts name), and the window walks over the list.
- `src/classify.rs` — declaration-site semantic tokens read from the tree, and
  the `full`/`range` responses.
- `src/references.rs` — reference-site tokens resolved against a symbol index,
  soft keywords, named-argument labels, called members, the lambda
  parameters that lambdas declare, and the decisions for members of typed
  receivers and for uses of lambda parameters.
- `src/index.rs` — the symbol index as plain values and its lookups.
- `src/encoding.rs` — tokens at absolute positions, ordering, de-duplication,
  range restriction and the LSP delta encoding, with their laws.
- `src/legend.rs` — token types and modifiers, symbol-kind mappings.
- `src/utf.rs`, `src/text.rs` — UTF-8 decoding, UTF-16 columns, lines and words.
- `src/rows.rs` — the rows that the `tokens` debug subcommand prints.
- `src/dump.rs` — the lines that the `tree` debug subcommand prints.
- `src/gradle.rs`, `src/paths.rs`, `src/source_roots.rs` — source roots from
  `settings.gradle(.kts)`, `workspace.json` and the Maven/Gradle build layout.
- `src/cli.rs` — command-line decisions.
- `app/` — the `kotlin-lsp` command: argument reading, files, printing.
- `tests/` — tests of the library.
