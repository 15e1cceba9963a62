# lambda_calculus

A verified front end for a small lambda-calculus language: a lexer over bytes,
a recursive-descent parser producing a layered syntax tree, and
Hindley–Milner type inference (constraint generation, Robinson unification with
the occurs check, let-polymorphism).

Layout:

- `src/lexer/` — tokens (`types.rs`), the lexer as a specification over byte
  sequences (`scan.rs`), and the executable `Lexer` proved against it (`mod.rs`).
- `src/ast/` — the syntax tree (`types.rs`), the grammar as specification
  functions (`grammar.rs`), and `parse` (`mod.rs`).
- `src/type_inferencer/` — types and fresh variables (`types.rs`), bindings as
  maps (`bindings.rs`, `substitution.rs`, `env.rs`), unification
  (`unification.rs`), constraint generation (`infer_types.rs`) and
  `type_inference` (`mod.rs`).
- `src/text.rs` — text helpers: decimal rendering and `Debug` text of values.
- `app/main.rs` — a small program that runs the pipeline on one expression.
