//! The command line.

pub mod args_parser;
pub mod flags;
