//! The mining pipeline: candidate generation, graph matching and
//! cross-graph frequency counting.

pub mod candidate_generation;
pub mod graph_matching;
pub mod match_cache;
pub mod candidate_matching;
pub mod config;
