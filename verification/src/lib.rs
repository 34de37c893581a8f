//! An in-memory SQL engine over typed, nullable, column-oriented tables.
//!
//! A query string is split into tokens, parsed by recursive descent into a
//! tree, and evaluated against a store of named tables through a registry of
//! map and reduce operators.

pub mod text;
pub mod result;
pub mod order;
pub mod floats;
pub mod table;
pub mod ops;
pub mod tokenizer;
pub mod parser;
pub mod converters;
pub mod build_column;
pub mod eval;
pub mod ingest;
pub mod linefeed_io;
