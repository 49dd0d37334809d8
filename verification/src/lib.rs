//! A command-line alias manager: the quoted-string tokenizer, the codec of the
//! alias file, and the interpreter of the command line, each with its contract.

pub mod util;
pub mod string_parsing;
pub mod alias_table;
pub mod config_parsing;
pub mod args_parsing;
