//! Front end of a small C-like interpreted language: a lexer that turns
//! source text into a token stream, and a recursive, precedence-aware
//! parser that builds an abstract syntax tree from it.

pub mod ast;
pub mod lexer;
pub mod parser;
pub mod token;
