//! A lexical scanner for a small domain-specific language.
//!
//! The scanner walks an input string character by character and produces a
//! flat sequence of classified tokens: keywords, type names, plain names,
//! arrows, integer and decimal literals, quoted strings, single-character
//! symbols, and empty separator tokens for statement boundaries.
//!
//! The module [`model`] defines the mathematical description of the token
//! stream; [`lexer`] holds the executable scanner, whose contracts tie the
//! tokens it produces to that description; [`laws`] proves the properties
//! that hold of every scan.

pub mod laws;
pub mod lexer;
pub mod model;
