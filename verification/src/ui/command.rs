//! Panes of the editor window and the commands the user can issue.
use crate::text::{chars_of, string_of};
use vstd::prelude::*;

verus! {

/// A pane of the editor window, in focus order.
#[derive(Debug, Clone, Copy, PartialEq, Eq, Hash, Structural)]
pub enum Pane {
    Sidebar,
    Viewer,
    Timeline,
    Inspector,
}

/// Position of a pane in focus order.
pub open spec fn pane_index(p: Pane) -> int {
    match p {
        Pane::Sidebar => 0,
        Pane::Viewer => 1,
        Pane::Timeline => 2,
        Pane::Inspector => 3,
    }
}

/// The pane at position `i` of focus order.
pub open spec fn pane_at(i: int) -> Pane {
    if i == 0 {
        Pane::Sidebar
    } else if i == 1 {
        Pane::Viewer
    } else if i == 2 {
        Pane::Timeline
    } else {
        Pane::Inspector
    }
}

/// Number of panes.
pub open spec fn pane_count() -> int {
    4
}

pub open spec fn pane_label(p: Pane) -> Seq<char> {
    match p {
        Pane::Sidebar => "Sidebar"@,
        Pane::Viewer => "Viewer"@,
        Pane::Timeline => "Timeline"@,
        Pane::Inspector => "Inspector"@,
    }
}

impl Pane {
    /// Every pane, in focus order.
    pub fn all() -> (r: Vec<Pane>)
        ensures
            r@ == seq![Pane::Sidebar, Pane::Viewer, Pane::Timeline, Pane::Inspector],
            r@.len() == pane_count(),
            forall|i: int| 0 <= i < pane_count() ==> (#[trigger] r@[i]) == pane_at(i),
    {
        vec![Pane::Sidebar, Pane::Viewer, Pane::Timeline, Pane::Inspector]
    }

    pub fn label(self) -> (r: &'static str)
        ensures
            r@ == pane_label(self),
    {
        match self {
            Pane::Sidebar => "Sidebar",
            Pane::Viewer => "Viewer",
            Pane::Timeline => "Timeline",
            Pane::Inspector => "Inspector",
        }
    }

    /// The next pane in focus order, wrapping around.
    pub fn next(self) -> (r: Pane)
        ensures
            r == pane_at((pane_index(self) + 1) % pane_count()),
    {
        match self {
            Pane::Sidebar => Pane::Viewer,
            Pane::Viewer => Pane::Timeline,
            Pane::Timeline => Pane::Inspector,
            Pane::Inspector => Pane::Sidebar,
        }
    }

    /// The previous pane in focus order, wrapping around.
    pub fn prev(self) -> (r: Pane)
        ensures
            r == pane_at((pane_index(self) + pane_count() - 1) % pane_count()),
    {
        match self {
            Pane::Sidebar => Pane::Inspector,
            Pane::Viewer => Pane::Sidebar,
            Pane::Timeline => Pane::Viewer,
            Pane::Inspector => Pane::Timeline,
        }
    }
}

/// Positions and panes correspond one to one.
pub proof fn lemma_pane_index_at(p: Pane, i: int)
    ensures
        pane_at(pane_index(p)) == p,
        0 <= pane_index(p) < pane_count(),
        0 <= i < pane_count() ==> pane_index(pane_at(i)) == i,
{
}

/// Moving focus forward then back, or back then forward, returns to the same
/// pane.
pub proof fn lemma_next_prev_inverse(p: Pane)
    ensures
        pane_at((pane_index(pane_at((pane_index(p) + 1) % pane_count())) + pane_count() - 1) % pane_count()) == p,
        pane_at((pane_index(pane_at((pane_index(p) + pane_count() - 1) % pane_count())) + 1) % pane_count()) == p,
{
}

/// Moving focus forward once per pane visits every pane and comes back.
pub proof fn lemma_next_cycles(p: Pane)
    ensures
        ({
            let n1 = pane_at((pane_index(p) + 1) % pane_count());
            let n2 = pane_at((pane_index(n1) + 1) % pane_count());
            let n3 = pane_at((pane_index(n2) + 1) % pane_count());
            let n4 = pane_at((pane_index(n3) + 1) % pane_count());
            &&& n4 == p
            &&& p != n1 && p != n2 && p != n3 && n1 != n2 && n1 != n3 && n2 != n3
        }),
{
}

/// Something the user asks the editor to do.
#[derive(Debug, Clone, Copy, PartialEq, Eq, Structural)]
pub enum Command {
    ToggleCommandPalette,
    FocusPane(Pane),
    FocusNextPane,
    FocusPrevPane,
    Escape,
    ToggleInspector,
    ToggleLeftSidebar,
    ResetLayout,
    ResetAllState,
    OpenFolder,
    LoadGzpFile(usize),
    SelectFile(usize),
    ReloadActiveGzp,
    RevealActiveFileManager,
    CopyActiveFilePath,
    PlayPause,
    FrameForward,
    FrameBackward,
    SeekToStart,
    SeekToEnd,
    TimelineZoomIn,
    TimelineZoomOut,
    Quit,
}

/// The name a command is listed under.
pub open spec fn command_label(c: Command) -> Seq<char> {
    match c {
        Command::ToggleCommandPalette => "Toggle Command Palette"@,
        Command::FocusPane(p) => "Focus "@ + pane_label(p),
        Command::FocusNextPane => "Focus Next Pane"@,
        Command::FocusPrevPane => "Focus Previous Pane"@,
        Command::Escape => "Escape"@,
        Command::ToggleInspector => "Toggle Inspector"@,
        Command::ToggleLeftSidebar => "Toggle Left Sidebar"@,
        Command::OpenFolder => "Open Folder"@,
        Command::LoadGzpFile(_) => "Load `.gzp` file"@,
        Command::SelectFile(_) => "Select file"@,
        Command::ReloadActiveGzp => "Reload Active .gzp"@,
        Command::RevealActiveFileManager => "Reveal in File Manager"@,
        Command::CopyActiveFilePath => "Copy File Path"@,
        Command::PlayPause => "Play / Pause"@,
        Command::FrameForward => "Frame Forward"@,
        Command::FrameBackward => "Frame Backward"@,
        Command::SeekToStart => "Seek to Start"@,
        Command::SeekToEnd => "Seek to End"@,
        Command::TimelineZoomIn => "Timeline Zoom In"@,
        Command::TimelineZoomOut => "Timeline Zoom Out"@,
        Command::ResetLayout => "Reset Layout"@,
        Command::ResetAllState => "Reset All State"@,
        Command::Quit => "Quit"@,
    }
}

/// The keyboard shortcut shown beside a command, when it has one.
pub open spec fn command_hint(c: Command) -> Option<Seq<char>> {
    match c {
        Command::ToggleCommandPalette => Some("Ctrl+Shift+P"@),
        Command::FocusPane(Pane::Sidebar) => Some("1"@),
        Command::FocusPane(Pane::Viewer) => Some("2"@),
        Command::FocusPane(Pane::Timeline) => Some("3"@),
        Command::FocusPane(Pane::Inspector) => Some("4"@),
        Command::FocusNextPane => Some("Tab"@),
        Command::FocusPrevPane => Some("Shift+Tab"@),
        Command::Escape => Some("Esc"@),
        Command::ToggleInspector => Some("I"@),
        Command::ReloadActiveGzp => Some("Ctrl+R"@),
        Command::RevealActiveFileManager => Some("Ctrl+Shift+R"@),
        Command::PlayPause => Some("Space"@),
        Command::FrameForward => Some("."@),
        Command::FrameBackward => Some(","@),
        Command::SeekToStart => Some("Home"@),
        Command::SeekToEnd => Some("End"@),
        Command::TimelineZoomIn => Some("="@),
        Command::TimelineZoomOut => Some("-"@),
        Command::Quit => Some("Ctrl+Q"@),
        _ => None,
    }
}

fn owned(s: &str) -> (r: String)
    ensures
        r@ == s@,
{
    let c = chars_of(s);
    string_of(c.as_slice())
}

impl Command {
    /// The name the command is listed under.
    pub fn label(&self) -> (r: String)
        ensures
            r@ == command_label(*self),
    {
        match self {
            Command::ToggleCommandPalette => owned("Toggle Command Palette"),
            Command::FocusPane(pane) => {
                let mut c = chars_of("Focus ");
                let mut rest = chars_of(pane.label());
                c.append(&mut rest);
                string_of(c.as_slice())
            },
            Command::FocusNextPane => owned("Focus Next Pane"),
            Command::FocusPrevPane => owned("Focus Previous Pane"),
            Command::Escape => owned("Escape"),
            Command::ToggleInspector => owned("Toggle Inspector"),
            Command::ToggleLeftSidebar => owned("Toggle Left Sidebar"),
            Command::OpenFolder => owned("Open Folder"),
            Command::LoadGzpFile(_) => owned("Load `.gzp` file"),
            Command::SelectFile(_) => owned("Select file"),
            Command::ReloadActiveGzp => owned("Reload Active .gzp"),
            Command::RevealActiveFileManager => owned("Reveal in File Manager"),
            Command::CopyActiveFilePath => owned("Copy File Path"),
            Command::PlayPause => owned("Play / Pause"),
            Command::FrameForward => owned("Frame Forward"),
            Command::FrameBackward => owned("Frame Backward"),
            Command::SeekToStart => owned("Seek to Start"),
            Command::SeekToEnd => owned("Seek to End"),
            Command::TimelineZoomIn => owned("Timeline Zoom In"),
            Command::TimelineZoomOut => owned("Timeline Zoom Out"),
            Command::ResetLayout => owned("Reset Layout"),
            Command::ResetAllState => owned("Reset All State"),
            Command::Quit => owned("Quit"),
        }
    }

    /// The keyboard shortcut shown beside the command.
    pub fn shortcut_hint(&self) -> (r: Option<&'static str>)
        ensures
            match command_hint(*self) {
                Some(h) => r matches Some(s) && s@ == h,
                None => r is None,
            },
    {
        match self {
            Command::ToggleCommandPalette => Some("Ctrl+Shift+P"),
            Command::FocusPane(Pane::Sidebar) => Some("1"),
            Command::FocusPane(Pane::Viewer) => Some("2"),
            Command::FocusPane(Pane::Timeline) => Some("3"),
            Command::FocusPane(Pane::Inspector) => Some("4"),
            Command::FocusNextPane => Some("Tab"),
            Command::FocusPrevPane => Some("Shift+Tab"),
            Command::Escape => Some("Esc"),
            Command::ToggleInspector => Some("I"),
            Command::ReloadActiveGzp => Some("Ctrl+R"),
            Command::RevealActiveFileManager => Some("Ctrl+Shift+R"),
            Command::PlayPause => Some("Space"),
            Command::FrameForward => Some("."),
            Command::FrameBackward => Some(","),
            Command::SeekToStart => Some("Home"),
            Command::SeekToEnd => Some("End"),
            Command::TimelineZoomIn => Some("="),
            Command::TimelineZoomOut => Some("-"),
            Command::Quit => Some("Ctrl+Q"),
            _ => None,
        }
    }
}

/// The commands the palette offers, in the order it lists them.
pub open spec fn palette_commands() -> Seq<Command> {
    seq![
        Command::ToggleCommandPalette,
        Command::FocusPane(Pane::Sidebar),
        Command::FocusPane(Pane::Viewer),
        Command::FocusPane(Pane::Timeline),
        Command::FocusPane(Pane::Inspector),
        Command::FocusNextPane,
        Command::FocusPrevPane,
        Command::ToggleInspector,
        Command::ToggleLeftSidebar,
        Command::OpenFolder,
        Command::ReloadActiveGzp,
        Command::RevealActiveFileManager,
        Command::CopyActiveFilePath,
        Command::PlayPause,
        Command::FrameForward,
        Command::FrameBackward,
        Command::SeekToStart,
        Command::SeekToEnd,
        Command::TimelineZoomIn,
        Command::TimelineZoomOut,
        Command::ResetLayout,
        Command::ResetAllState,
        Command::Quit,
    ]
}

/// All commands the command palette offers.
pub fn all_commands() -> (r: Vec<Command>)
    ensures
        r@ == palette_commands(),
{
    let r = vec![
        Command::ToggleCommandPalette,
        Command::FocusPane(Pane::Sidebar),
        Command::FocusPane(Pane::Viewer),
        Command::FocusPane(Pane::Timeline),
        Command::FocusPane(Pane::Inspector),
        Command::FocusNextPane,
        Command::FocusPrevPane,
        Command::ToggleInspector,
        Command::ToggleLeftSidebar,
        Command::OpenFolder,
        Command::ReloadActiveGzp,
        Command::RevealActiveFileManager,
        Command::CopyActiveFilePath,
        Command::PlayPause,
        Command::FrameForward,
        Command::FrameBackward,
        Command::SeekToStart,
        Command::SeekToEnd,
        Command::TimelineZoomIn,
        Command::TimelineZoomOut,
        Command::ResetLayout,
        Command::ResetAllState,
        Command::Quit,
    ];
    proof {
        assert(r@ =~= palette_commands());
    }
    r
}

/// The palette lists each command once.
pub proof fn lemma_palette_distinct()
    ensures
        forall|i: int, j: int|
            0 <= i < j < palette_commands().len() ==> (#[trigger] palette_commands()[i]) != (#[trigger] palette_commands()[j]),
{
}

} // verus!
