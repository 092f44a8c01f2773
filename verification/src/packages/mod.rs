//! Package groups: dependency resolution and installation order.
pub mod graph;
pub mod install;
pub mod list;
