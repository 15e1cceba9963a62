//! Front end for a small lambda-calculus language: a lexer over bytes, a
//! recursive-descent parser producing a layered AST, and Hindley–Milner style
//! type inference (constraint generation, unification, let-polymorphism).
pub mod text;
pub mod lexer;
pub mod ast;
pub mod type_inferencer;
