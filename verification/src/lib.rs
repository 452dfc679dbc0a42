//! Core data structures for an Earley parser with a shared packed parse
//! forest: symbols, node handles, a ragged two-dimensional chart store,
//! packed forest-node encodings, and grammar preparation tables.

pub mod bocage_node;
pub mod cfg_support;
pub mod compact_graph;
pub mod default_grammar;
pub mod grammar_api;
pub mod matrix_support;
pub mod node_handle;
pub mod null_forest;
pub mod symbol;
pub mod vec2d;
