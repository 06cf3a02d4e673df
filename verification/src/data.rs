//! The in-memory graph model.

pub mod text;
pub mod edge;
pub mod vertex;
pub mod graph;
pub mod digraph;
pub mod utils;
pub mod parser;
