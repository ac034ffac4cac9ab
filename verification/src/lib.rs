//! A command-line argument parser.
//!
//! Callers declare a grammar of positional arguments and named options on an
//! [`ArgParser`], then hand it the raw argument vector.  A single
//! left-to-right scan classifies every token, collects values and
//! diagnostics, and returns an [`ArgDict`] that can be queried for the
//! parsed results.  The parser also renders word-wrapped usage and help
//! text for the declared grammar.

pub mod dict;
pub mod help;
pub mod laws;
pub mod messages;
pub mod parse;
pub mod registry;
pub mod scan;
pub mod text;
pub mod wrap;

pub use dict::ArgDict;
pub use registry::ArgParser;
pub use text::generate_spaces;
