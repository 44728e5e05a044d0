//! A recursive-descent parser for a small literal-value language:
//! integers, floats, strings, and nested arrays and hashes, parsed into
//! an abstract syntax tree whose nodes carry the source position (line,
//! column) of their introducing token.

pub mod ast;
pub mod laws;
pub mod lexing;
pub mod numeric;
pub mod parser;
pub mod token;
