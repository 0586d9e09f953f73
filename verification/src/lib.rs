//! Lexical analysis for a small experimental language: a splitter that breaks
//! raw source text into words, and a classifier that turns words into typed
//! tokens with positional spans.

pub mod chars;
pub mod classifier;
pub mod display;
pub mod parse_int;
pub mod splitter;
pub mod token;
