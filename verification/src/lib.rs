//! A parser and spatial index for a line-oriented wiki markup dialect.
//!
//! The crate turns plain text into a tree of region-annotated block and
//! inline elements, offers a post-parse normalization pass for lists, and
//! builds a navigable forest over a parsed page for position queries.

pub mod blocks;
pub mod chars;
pub mod config;
pub mod elements;
pub mod eqv;
pub mod inline;
pub mod lexer;
pub mod linescan;
pub mod location;
pub mod opt;
pub mod text;
pub mod tree;

pub use blocks::parse_str;
pub use blocks::ParseError;
pub use inline::inline_component;
pub use inline::inline_component_container;
pub use inline::external_file_link;
