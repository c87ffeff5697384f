//! A Markdown tokenizer and the row/column text grid of a cell-based editor.
//!
//! The crate turns Markdown source into rows of styled text runs, projects
//! those rows onto a grid of plain strings, keeps an editable document with a
//! caret, and converts caret positions between the grid and a flat offset
//! within a row. On top of the document it decides what each key and each
//! pending update of the page does. Every executable function carries a
//! contract that Verus proves.

pub mod numbers;
pub mod strings;
pub mod offsets;
pub mod syntax;
pub mod state;
pub mod builder;
pub mod layout;
pub mod codec;
pub mod dom;
pub mod handler;
pub mod queue;
pub mod reconcile;
