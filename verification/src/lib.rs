//! A small tree-walking language: a lexical scanner, a recursive-descent
//! parser, and an evaluator over a chain of lexical scopes.
//!
//! The pipeline is `scan` (source text to tokens), `AstFactory` (tokens to
//! statements), and `Interpreter` (statements to printed lines and a final
//! environment). Values are dynamically typed over four kinds: number,
//! boolean, string, and nil. Numbers are exact signed rationals extended
//! with infinities and a not-a-number value; see the `value` module.

pub mod ast;
pub mod display;
pub mod environment;
pub mod interpreter;
pub mod laws;
pub mod parser;
pub mod position;
pub mod scanner;
mod text;
pub mod value;
