//! The rope-backed text buffer and what reads it.

pub mod buffer;
pub mod grapheme;
pub mod lines;
pub mod selection;
pub mod text_objects;

pub use buffer::Buffer;
