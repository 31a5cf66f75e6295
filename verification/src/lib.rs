//! A transcoder for a flat, tag-per-field XML dialect describing a sparse
//! relational matrix: a streaming reader rebuilds a row-per-entity model from
//! the input dialect, and a canonicalizing writer emits a size-minimized
//! dialect in which relation values equal to zero are omitted.

pub mod config;
pub mod laws;
pub mod model;
pub mod reader;
pub mod scalar;
pub mod text;
pub mod token;
pub mod writer;
pub mod xml;
