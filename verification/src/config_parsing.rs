//! The alias file.

pub mod config_parser;
