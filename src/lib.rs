//! A small workflow engine: a directed acyclic graph of root, arithmetic and
//! action nodes, walked depth first with guarded edges and a variable
//! environment that each branch owns.
pub mod env;
pub mod error;
pub mod eval;
pub mod graph;
pub mod value;
pub mod walk;
