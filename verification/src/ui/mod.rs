//! The editor's decisions: which pane has focus, what each command and key
//! does, which commands the palette lists, and which files are projects.
pub mod command;
pub mod app;
pub mod palette;
pub mod state;
