//! Indexing of a game-modification library: the binary ordering and
//! category files, the per-item configuration text, the in-memory catalog
//! of items and categories, and the reordering of categories.
pub mod text;
pub mod reader;
pub mod config;
pub mod item;
pub mod tree;
pub mod reorder;
pub mod catalog;
