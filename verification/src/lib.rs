//! A semantic code-indexing pipeline: it turns the build description of one
//! compilation unit, the contents of its source files, and the toolchain's
//! per-crate analysis artifacts into a stream of graph entries (nodes, facts,
//! edges) handed to an entry writer, with an explicit durability checkpoint
//! at the end of each unit.

pub mod errors;
pub mod entries;
pub mod decimal;
pub mod writer;
pub mod provider;
pub mod save_analysis;
pub mod analyzers;
pub mod indexer;
pub mod laws;

