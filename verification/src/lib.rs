//! Static analysis of one source file: which variables it declares, in which
//! lexical scope, and where each of them is mentioned.

pub mod graph;
pub mod laws;
pub mod lineage;
pub mod location;
pub mod order;
pub mod parse;
pub mod registry;
pub mod scope;
pub mod text;
pub mod tracker;
pub mod tree;
pub mod walker;

pub use tracker::DataLineageTracker;
