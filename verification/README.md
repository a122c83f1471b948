# MiniC

MiniC is a small C-like teaching language: a parser, a type checker, a
tree-walking interpreter and a generator of three-address code. This crate
is the language implementation written in Verus, with its behaviour stated
in contracts and proved.

Layout:

- `src/parser` — source text to an unchecked syntax tree (`parser::program`).
  The grammar is written as relations between text and trees
  (`grammar.rs`, `item_grammar.rs`); every tree a parser returns is a
  reading of the text it consumed.
- `src/semantic` — the typing rules (`rules.rs`) and the checker that
  decorates every node with its type (`semantic::type_check`); a checked
  program satisfies the rules and erases to its input, and the expression
  and statement checkers succeed on everything that can be typed
  (`uniqueness.rs` shows that types are unique).
- `src/interpreter`, `src/environment.rs` — execution of checked programs.
  Native functions and floating-point arithmetic are left to a `Host`
  supplied by the caller; every run has a budget of steps.
- `src/codegen` — lowering to three-address code, specified instruction by
  instruction by the scheme in `scheme.rs`, the linker's view of native
  functions, and rendering of code as text.
- `src/stdlib` — the registry of native functions and the parts of them that
  compute on plain values.
- `app/main.rs` — the `minic` command (`--check`, `--run`, `--test`): file
  and console input and output, and the floating-point work.
