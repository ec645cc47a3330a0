//! The front and middle of a tree-walking interpreter for a small
//! dynamically-typed scripting language: a scanner that turns source text
//! into tokens, a recursive-descent parser that builds statement trees under
//! a fixed operator-precedence grammar, and an evaluator that walks those
//! trees to runtime values.
use vstd::prelude::*;

pub mod ast;
pub mod ast_printer;
pub mod interpreter;
pub mod laws;
pub mod number;
pub mod parser;
pub mod runner;
pub mod scanner;
pub mod text;
pub mod token;

verus! {

} // verus!
