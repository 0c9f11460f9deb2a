//! Lexical analysis for a small expression language: source bytes in,
//! classified tokens out.

pub mod token;
pub mod model;
pub mod lexer;
pub mod laws;
