# dtsfmt

A formatter for Devicetree sources, with keymap bindings laid out in the grid of
the keyboard, verified with Verus.

- `src/tree.rs` parses a source with the tree-sitter grammar for Devicetree and
  reads the tree into plain values; its trusted items state what the calls give.
- `src/printer.rs` states what each node of the tree is printed as, and prints
  it; `define.rs`, `bindings.rs`, `writer.rs`, `text.rs` hold its parts.
- `src/laws.rs` and `src/laws/` hold what is proved of the whole: what is printed
  stays, aligned definitions and bindings share columns, aligning definitions
  moves white space only, printed definitions are printed alike again, no byte is
  lost, no binding is lost while the layout has keys, warnings leave the text as
  it is.
- `app/` prints the warnings on standard error.
