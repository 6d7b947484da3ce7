//! The text-buffer core of a small desktop editor.
//!
//! A [`Document`](document::Document) owns a rope-backed [`TextBuffer`](buffer::TextBuffer),
//! a row/column [`Cursor`](cursor::Cursor), a bounded [`EditHistory`](history::EditHistory)
//! and, once configured, an incremental parser that is re-run after every edit.

pub mod buffer;
pub mod cursor;
pub mod document;
pub mod error;
pub mod history;
pub mod input;
pub mod layout;
pub mod syntax;
pub mod text;
