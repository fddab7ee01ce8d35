//! A small lexical scanner with position tracking and recoverable error
//! reporting.
//!
//! The scanner turns a source string into a stream of classified tokens.
//! Illegal characters and unparsable number literals never abort the scan:
//! they are recorded in a caller-owned error sink and scanning continues.

pub mod ast;
pub mod error;
pub mod laws;
pub mod lexer;
pub mod parser;
pub mod render;
pub mod scan;
pub mod token;
