//! Building blocks shared by the tokenizer, the codec and the interpreter.

pub mod cursor;
pub mod platform;
pub mod text;
pub mod words;
