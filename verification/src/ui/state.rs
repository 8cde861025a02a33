//! The plain parts of the editor's saved state: which sidebar is shown, what
//! is selected, how a render went, and the diagnostics shown to the user.
use vstd::prelude::*;

verus! {

/// The sidebar tab of the project state.
#[derive(Debug, Clone, Copy, PartialEq, Eq, Structural)]
pub enum Sidebar {
    Project,
    Media,
}

/// What the user has selected in a sidebar.
#[derive(Debug, Clone, Copy, PartialEq, Eq, Structural)]
pub enum Selection {
    ProjectFile(usize),
    MediaItem(usize),
}

/// Where rendering the output stands.
#[derive(Debug, Clone, Copy, PartialEq, Eq, Structural)]
pub enum RenderStatus {
    Idle,
    Rendering,
    Done,
    Error,
}

/// How serious a diagnostic is.
#[derive(Debug, Clone, Copy, PartialEq, Eq, Structural)]
pub enum Severity {
    Error,
    Warning,
    Info,
}

/// A message about a place in a file.
#[derive(Debug, Clone)]
pub struct Diagnostic {
    pub file: Option<String>,
    pub line: Option<u32>,
    pub column: Option<u32>,
    pub severity: Severity,
    pub message: String,
}

/// The main view of the editor.
#[derive(Debug, Clone, Copy, PartialEq, Eq, Structural)]
pub enum View {
    Graph,
    Node,
    Timeline,
}

impl Default for View {
    /// The graph view.
    fn default() -> (r: View)
        ensures
            r == View::Graph,
    {
        View::Graph
    }
}

} // verus!
