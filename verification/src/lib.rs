//! Verified core of a small collection of Unix-style text utilities.
//!
//! The crate contains the pieces with real algorithmic content: a
//! quote-aware command-line tokenizer, a backslash-escape decoder,
//! option parsers for a display utility and a counting utility, a
//! composable text-transformation pipeline, and a line/word/character
//! counting engine.  File and console handling is left to callers,
//! which hand the functions plain text and receive formatted strings.
#![verifier::loop_isolation(false)]

pub mod cat;
pub mod errors;
pub mod escape;
pub mod head;
pub mod ls;
pub mod rm;
pub mod text;
pub mod tokenize;
pub mod wc;
