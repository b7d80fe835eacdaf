//! A document store for a note-taking program: a flat mapping from
//! slash-separated keys to entries, the tree view rebuilt from those keys,
//! and a linear search over names and contents.

pub mod cache;
pub mod cursor;
pub mod file_types;
pub mod hooks;
pub mod laws;
pub mod listing;
pub mod matching;
pub mod numbering;
pub mod offsets;
pub mod order;
pub mod path;
pub mod search;
pub mod session;
pub mod snippet;
pub mod state;
mod table;
pub mod text;
pub mod tree;
