//! A lexical scanner for a small dynamically-typed scripting language.
//!
//! The scanner turns raw source text into an ordered sequence of typed
//! tokens, tracking source line numbers for diagnostics and recovering
//! from malformed input without aborting the scan.  Its behaviour is
//! specified against a mathematical model of the scan (`model`), and the
//! executable scanner is proved to produce exactly the token and
//! diagnostic sequences that the model prescribes.

pub mod error;
pub mod model;
pub mod scanner;
pub mod token;
