//! Operations of the render graph: what they are asked for, how nodes are
//! identified, and the decisions the built-in operations make.
pub mod request;
pub mod node_id;
pub mod ops;
