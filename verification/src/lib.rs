//! Dependency graph over the declarations of a multi-file GraphQL schema:
//! per-kind dependency extraction, two-phase graph construction and the
//! structural queries answered from the finished graph.

pub mod state;
pub mod schema;
pub mod extend_types;
pub mod graph;
pub mod model;
pub mod utils;
pub mod laws;
pub mod render;
pub mod order;
