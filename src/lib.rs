//! Renders parse trees as Graphviz `dot` text with stable node ids, and lists
//! the highlighting captures of a query over source text.
pub mod graph;
pub mod highlight;
pub mod label;
pub mod languages;
pub mod laws;
pub mod syntax;
