//! A small text-template engine: template text is split into literal and
//! code chunks, code chunks are tokenized and built into a tree, and the
//! tree is rendered against a key-value context.

pub mod context;
pub mod errors;
pub mod filters;
pub mod laws;
pub mod search;
pub mod templates;
pub mod util;
