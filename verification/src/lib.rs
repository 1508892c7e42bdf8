//! A text editor around a piece table: the document as pieces of two
//! stores, with its lines, its edits and its search; a buffer that addresses
//! it by positions; and an editor that turns keys into edits and into the
//! steps that draw it.

pub mod buffer;
pub mod chars;
pub mod codes;
pub mod document;
pub mod draw;
pub mod editor;
pub mod file_extension;
pub mod format;
pub mod highlighter;
pub mod highlighter_rust;
pub mod highlighter_toml;
pub mod key;
pub mod laws;
pub mod line_endings;
pub mod lines;
pub mod piece;
pub mod piece_table;
pub mod position;
pub mod screen;
pub mod search;
pub mod text;
pub mod tokenizer;
pub mod tokenizer_toml;
