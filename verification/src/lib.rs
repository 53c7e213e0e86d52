//! The front end of a small scripting language that is compiled to Scratch 3
//! projects.
//!
//! [`parse`] holds the lexer and the recursive-descent parser: source text
//! becomes tokens ([`parse::tokens`]), and tokens become a syntax tree
//! ([`parse::parser`]). What both compute is fixed by mathematical functions
//! ([`parse::tokens::lex`] and [`parse::grammar`]), and what holds of those
//! functions is proved beside them ([`parse::render`], [`parse::unparse`]).
//!
//! [`sb3`] holds the vocabulary of the project format, the identifiers of
//! its objects and the naming of its asset files.
//!
//! [`text`] states what is assumed of the few string functions of the
//! standard library that are called and come without a specification.

pub mod parse;
pub mod sb3;
pub mod text;
