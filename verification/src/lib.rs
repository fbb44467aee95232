//! Extraction of structured function-call invocations from free-form text.
//!
//! The library parses a constrained subset of Python literal and call syntax
//! (booleans, numbers, quoted strings, identifiers, lists, dicts, and
//! keyword-argument calls), optionally wrapped in sentinel markers.  It offers
//! a strict one-shot parser, a best-effort scanner that extracts call lists
//! embedded in surrounding prose, and an incremental session that accepts text
//! in arbitrary chunks and accumulates the calls seen so far.

pub mod engine;
pub mod grammar;
pub mod laws;
pub mod lex;
pub mod parser;
pub mod scanner;
pub mod session;
pub mod text;
pub mod token_parser;
pub mod value;
