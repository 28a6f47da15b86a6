//! Core of a code-editing text input: a rope-backed text buffer with
//! byte / UTF-16 / line-column coordinate conversions, an incremental
//! soft-wrap layout engine, a diagnostic marker overlay, and the state
//! machines behind completion, hover and definition lookups.

pub mod actions;
pub mod buffer;
pub mod error;
pub mod events;
pub mod marker;
pub mod text_wrapper;
pub mod cursor;
pub mod layout;
pub mod lsp;
pub mod lines;
pub mod rope;
pub mod state;
pub mod unicode;
