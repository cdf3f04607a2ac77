//! A suggestion engine for redaction-rule configurations.
//!
//! Given a structured event, a baseline configuration and a dot-delimited
//! target path, the engine enumerates candidate configuration mutations
//! (rule applied to a category, or a key-removal rule) and surfaces every
//! candidate whose observed value at the target path differs from the
//! baseline. The actual pattern matching and masking is done by an external
//! redaction processor; this crate plans the candidates, resolves paths in
//! the processor's annotated output, and decides which candidates to keep.

pub mod config;
pub mod engine;
pub mod json;
pub mod path;
pub mod resolve;
pub mod value;
