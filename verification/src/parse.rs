//! Lexing and parsing of program source text.

pub mod grammar;
pub mod parser;
pub mod render;
pub mod tokens;
pub mod unparse;
