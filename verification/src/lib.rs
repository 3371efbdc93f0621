//! Markdown event-to-tree serialization.
//!
//! The crate turns an ordered stream of structural markdown parse events
//! into the nested JSON message a rendering frontend consumes, while
//! interleaving search-match tokenization and a single "modified" marker
//! without disturbing the tree nesting. It also carries the small
//! configuration and navigation-history types of the host application.

pub mod app;
pub mod config;
pub mod escape;
pub mod events;
pub mod laws;
pub mod serializer;
pub mod tokens;
pub mod wire;
