//! Data-driven assembly of multi-page documents: per-row overlays of codes
//! and text onto a cloned template page.

pub mod config;
pub mod content;
pub mod dimension;
pub mod document;
pub mod fonts;
pub mod laws;
pub mod numfmt;
pub mod object;
pub mod resources;
pub mod store;
pub mod text;
