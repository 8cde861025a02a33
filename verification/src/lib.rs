//! Jamon: building and evaluating render graphs for video, with exact media
//! timing.
pub mod data;
pub mod graph;
pub mod media;
pub mod node;
pub mod rational;
pub mod text;
pub mod sketch;
pub mod engine;
pub mod ui;
pub mod operations;
pub mod render;
