//! Mining of frequent collaboration patterns from a database of labeled
//! directed multigraphs: candidate enumeration, pairwise graph matching and
//! cross-graph frequency counting, with machine-checked contracts.

pub mod data;

pub mod cpd;
