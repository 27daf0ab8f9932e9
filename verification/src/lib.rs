//! Front end of a small interpreted language: a byte-level tokenizer and a
//! precedence-climbing (Pratt) parser that builds an abstract syntax tree
//! while collecting human-readable diagnostics for malformed input.

pub mod ast;
pub mod lexer;
pub mod parser;
