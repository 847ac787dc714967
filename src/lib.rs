//! Browse JSON, YAML and TOML documents as a collapsible tree.
//!
//! The library turns source text into one normalized value model, builds a
//! flattened, path-addressed node sequence from it, and drives the
//! expand/collapse/selection state that a terminal front end renders.

pub mod config;
pub mod text;
pub mod value;
pub mod tree;
pub mod nav;
pub mod source;
pub mod parse;
