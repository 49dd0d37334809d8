//! Quoted strings.

pub mod string_parser;
