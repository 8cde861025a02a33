//! The engine: graphs of registered nodes whose outputs are computed on
//! demand and cached.
pub mod node;
pub mod graph;
pub mod plan;
