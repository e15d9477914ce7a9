//! An interpreter for a small Pascal-like language: integer arithmetic with
//! unary signs and parentheses, variable assignment, statement sequences and
//! `PROGRAM ... END_PROGRAM` blocks.
//!
//! Source text goes through the scanner (`lexer`), the recursive-descent
//! parser (`parser`, whose grammar is modelled in `grammar`) and the
//! tree-walking evaluator (`interpreter`, modelled in `semantics`). Each stage
//! is verified against its model; `laws` proves properties of the whole
//! pipeline.
pub mod ast;
pub mod error;
pub mod grammar;
pub mod interpreter;
pub mod laws;
pub mod lexer;
pub mod parser;
pub mod scope;
pub mod semantics;
pub mod token;
