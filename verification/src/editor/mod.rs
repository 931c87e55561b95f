//! Editing logic: cursor positions, blocks, formatting and highlighting.
pub mod cursor;
pub mod syntax;
pub mod block;
pub mod formatting;
pub mod buffer;
