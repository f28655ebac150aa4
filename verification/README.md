# corvo7

A compiler for Corvo7, a small statically typed language, to C. The library
is written in Verus: every stage carries a specification and is proved to
meet it.

- `src/compiler/lexer.rs` — scanning of source lines into tokens, with every
  error reported and its position.
- `src/compiler/parser.rs` — recursive-descent parsing into statements, with
  error recovery at statement boundaries.
- `src/compiler/semantic.rs` — scopes, types, constness and loop placement.
- `src/compiler/codegen.rs` — C source from the statements.
- `src/compiler/ir.rs`, `lowering.rs` — a three-address form with labelled
  blocks, and lowering into it.
- `src/compiler/copy_propagation.rs`, `dce.rs` — passes over that form.
- `src/compiler/codegenllc.rs` — C source from that form.
- `src/compiler/text.rs` — character classes and decimal text.

`app/` is the command line: it reads the source file, reports errors,
writes the C file and calls the C compiler.
