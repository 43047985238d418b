//! Block-level parsing of a line-oriented markup format, and its HTML rendering.
pub mod block;
pub mod doc;
pub mod inline;
pub mod text;
