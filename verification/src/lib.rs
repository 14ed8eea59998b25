//! A small calculator language: text to tokens, tokens to a syntax tree, and
//! the tree to a value.
//!
//! - `lexer`: the tokens of a line, and `Lexer::lex`, which computes them.
//! - `grammar`: the productions of the language, as functions from tokens to
//!   trees.
//! - `parser`: the syntax tree, and `Parser`, whose methods compute what the
//!   grammar says and record the names that a line defines.
//! - `repl`: the value of a tree, and `Repl`, which computes it and records
//!   what a definition binds.
//! - `session`: a parser and an evaluator that take the same lines.
//! - `literal`: the numbers that a line can spell.
//!
//! Numbers are kept exactly. A literal is a natural number of any size, and
//! the value of an expression is the arithmetic that yields it; rounding to
//! machine numbers is left to the caller.
pub mod grammar;
pub mod lexer;
pub mod literal;
pub mod parser;
pub mod repl;
pub mod session;
