//! Tokenizer that splits a message into plain characters, standard emoji
//! images and custom-emoji references.

pub mod emoji;
pub mod laws;
pub mod markup;
pub mod segment;
pub mod span;
pub mod token;

pub use emoji::raw_parse_emoji;
pub use markup::{
    assemble, check_pattern, parse, parse_with, raw_parse, try_parse, ScanError, MARKUP_PATTERN,
};
pub use token::Token;
