//! A lexical scanner for a small language: it turns source text into a
//! stream of tokens (identifiers, number and string literals, punctuation,
//! comments, keywords), one token per call, until an end-of-input marker.

pub mod token;
pub mod lexer;
pub mod laws;
