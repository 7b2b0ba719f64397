//! Token-acquisition layer between a character-level lexer and a
//! recursive-descent parser.
//!
//! The token source presents the parser with a stream of significant
//! (non-trivia) tokens while recording every skipped trivia piece with enough
//! positional metadata to reconstruct the source text exactly, supporting
//! multi-token lookahead without re-scanning, checkpoint/rewind for
//! speculative parsing, and context-sensitive re-lexing.

pub mod laws;
pub mod lexer;
pub mod stream;
pub mod syntax;
pub mod token_source;
