//! Markdown syntax: the tokenizer, its mathematical model, and the style of
//! a rendered cell.

pub mod markdown;
pub mod model;
pub mod round_trip;
pub mod text;
