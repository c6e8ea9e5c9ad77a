# Flip

A small compiler front end, an assembler preprocessor and a 16-bit virtual
machine, written in Verus: each function states what it computes in its
contract, and Verus proves the code against it.

## Layout

- `src/lexer` — tokens and the lexer (`spec_lex` says which token starts at each byte).
- `src/parser` — the combinator parser for the expression language: `grammar.rs`
  states the grammar over the token stream (trees, spans and diagnostics),
  `combinators.rs` parses by it (operators of equal strength group to the
  left); `display.rs` renders trees, `evaluator.rs` folds constant integer
  expressions, `visitor.rs` hands tree nodes to a visitor.
- `src/ast` — the statement tree and its `Result`-based parser, display and evaluator.
- `src/resolver` — name resolution with strict scoping (no shadowing).
- `src/frontend.rs` — parse, render and check a program in one call.
- `src/diagnostics`, `src/source.rs`, `src/span.rs` — diagnostics and how they are shown.
- `src/pp` — the assembler's line preprocessor (variables, labels, macros).
- `src/op.rs`, `src/register.rs`, `src/memory.rs`, `src/io.rs`, `src/vm.rs` —
  the instruction encoding, registers, memory and the machine's step.
- `app/main.rs` — the command-line drivers (`asm`, `dis`, `repl`, `vm`): file
  and terminal I/O and the signal handlers.
- `app/evaluator.rs` — a visitor that evaluates a program's arithmetic in
  floating point, kept outside the verified library for that reason.

Laws that relate several operations (a read after a write, a pop after a
push, a lookup after a definition, decoding after encoding, operator
grouping) are public proof functions next to the operations they speak of.
