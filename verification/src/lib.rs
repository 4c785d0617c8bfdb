//! A recursive-descent JSON parser.
//!
//! The lexer turns a character buffer into tokens, the parser consumes the
//! tokens with one token of lookahead and builds a [`json::JsonValue`] tree.
//! Both are specified against a mathematical model of the whole pipeline:
//! [`parser::spec_parse_json`] maps a character sequence to the exact result
//! (value tree or error) that [`parser::parse_json`] returns.

pub mod error;
pub mod json;
pub mod laws;
pub mod lexer;
pub mod parser;

pub use error::JsonError;
pub use json::JsonValue;
pub use parser::parse_json;

