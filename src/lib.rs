//! The front end of a small interpreted language: a lexer that turns source text
//! into tokens and a parser that builds a program from them, collecting
//! diagnostics instead of stopping at the first mistake.

pub mod ast;
pub mod lexer;
pub mod parser;
pub mod token;
