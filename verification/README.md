# candy_frontend

The front end of the Candy compiler as a Verus library: the data structures of
its syntax trees and intermediate representations, the doc comment parser, the
formatting of values and errors, and the module and package model, each with
contracts that Verus proves.

## Layout

- `src/comment/`: doc comments. `string_to_rcst.rs` takes whitespace, line
  breaks and indentation; `inline_parser.rs` parses inline formatting;
  `blocks.rs` parses titles, paragraphs, URLs, code blocks, lists and blocks;
  `doc_comment.rs` picks the comment lines out of the syntax tree and parses
  them. `rcst_view.rs` gives the nodes mathematical values, and the parsers'
  contracts state their results over spec functions on those values.
- `src/cst/`: the concrete syntax tree: node kinds and their text, search by
  ID and by offset, whether a node spans lines, and unwrapping whitespace and
  comments.
- `src/ast.rs`, `src/ast_tree.rs`: the abstract syntax tree, search by ID,
  error collection and captured identifiers.
- `src/hir.rs`, `src/hir/pattern.rs`: IDs of the high-level intermediate
  representation and its patterns.
- `src/mir.rs`, `src/mir/`: the mid-level intermediate representation, the IDs
  its expressions define, refer to and capture, what is known of their purity,
  constant folding of built-in calls, tree shaking, and removing what follows a
  panic or only gives back the result.
- `src/bigint.rs`: integers of any size, over `num-bigint`.
- `src/lir.rs`, `src/lir/`, `src/hir_to_mir.rs`, `src/module_folding.rs`,
  `src/builtin_functions.rs`: the low-level representation's expressions, IDs
  and small types of the lower representations, and the built-in functions.
- `src/module/`: packages, modules, `use` paths and module providers.
- `src/format.rs`, `src/error.rs`, `src/position.rs`, `src/text.rs`: value
  formatting, error messages, positions in text, and text helpers.
- `app/`: file system access around the library (reading module files,
  finding packages on disk).
- `tests/`: tests of the library.
