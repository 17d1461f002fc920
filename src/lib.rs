//! Lexical front end of a small language: a tokenizer that turns source text
//! into classified tokens, and the syntax-tree shapes with the operator
//! precedence relation that a parser uses to group them.
pub mod ast;
pub mod extractors;
pub mod lexer;
pub mod locality;
pub mod token;
pub mod types;
