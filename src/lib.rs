//! A tree-walking interpreter for uwucode, a small dynamically typed
//! scripting language: a scanner, a precedence-climbing parser and an
//! evaluator over a chain of lexical scopes.
pub mod ast;
pub mod env;
pub mod eval;
pub mod interpreter;
pub mod lexer;
pub mod parser;
pub mod text;
pub mod token;
