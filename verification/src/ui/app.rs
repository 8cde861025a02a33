//! What the editor does with a command, and which commands the keyboard
//! issues. The window, dialogs and the clipboard are driven by the caller
//! from the effect each command returns.
use crate::text::{extension_of, path_extension, str_eq};
use crate::ui::command::{pane_at, pane_index, pane_count, Command, Pane};
use vstd::prelude::*;

verus! {

// === Project files =========================================================

/// Whether `path` names a project file: its extension is `gzp`.
pub fn is_gzp(path: &str) -> (r: bool)
    ensures
        r == (path_extension(path@) == Some("gzp"@)),
{
    match extension_of(path) {
        Some(e) => str_eq(e.as_str(), "gzp"),
        None => false,
    }
}

/// Position of the first project file among `paths`.
pub fn first_gzp(paths: &Vec<String>) -> (r: Option<usize>)
    ensures
        match r {
            Some(i) => i < paths@.len() && path_extension(paths@[i as int]@) == Some("gzp"@) && forall|j: int|
                0 <= j < i ==> path_extension((#[trigger] paths@[j])@) != Some("gzp"@),
            None => forall|j: int| 0 <= j < paths@.len() ==> path_extension((#[trigger] paths@[j])@) != Some("gzp"@),
        },
{
    let mut i: usize = 0;
    while i < paths.len()
        invariant
            i <= paths@.len(),
            forall|j: int| 0 <= j < i ==> path_extension((#[trigger] paths@[j])@) != Some("gzp"@),
        decreases paths@.len() - i,
    {
        if is_gzp(paths[i].as_str()) {
            return Some(i);
        }
        i = i + 1;
    }
    None
}

// === Layout ================================================================

/// The tab shown in the left sidebar.
#[derive(Debug, Clone, Copy, PartialEq, Eq, Hash, Structural)]
pub enum Sidebar {
    Files,
    Sources,
    Media,
}

impl Default for Sidebar {
    /// The file tree.
    fn default() -> (r: Sidebar)
        ensures
            r == Sidebar::Files,
    {
        Sidebar::Files
    }
}

/// What the inspector knows of a media file of the project (nothing yet).
#[derive(Debug, Clone, Copy, PartialEq, Eq, Structural)]
pub struct MediaFile {}

impl Default for MediaFile {
    fn default() -> (r: MediaFile)
        ensures
            r == (MediaFile {}),
    {
        MediaFile {}
    }
}

// === Menus and the file tree ================================================

/// An entry of the top bar's menus.
#[derive(Debug, Clone, Copy, PartialEq, Eq, Structural)]
pub enum MenuItem {
    OpenProject,
    ReloadGzp,
    RevealInFileManager,
    ResetAllState,
    Quit,
    ToggleInspector,
    ToggleLeftSidebar,
    ResetLayout,
    Focus(Pane),
}

/// The command a menu entry issues.
pub open spec fn menu_command_of(item: MenuItem) -> Command {
    match item {
        MenuItem::OpenProject => Command::OpenFolder,
        MenuItem::ReloadGzp => Command::ReloadActiveGzp,
        MenuItem::RevealInFileManager => Command::RevealActiveFileManager,
        MenuItem::ResetAllState => Command::ResetAllState,
        MenuItem::Quit => Command::Quit,
        MenuItem::ToggleInspector => Command::ToggleInspector,
        MenuItem::ToggleLeftSidebar => Command::ToggleLeftSidebar,
        MenuItem::ResetLayout => Command::ResetLayout,
        MenuItem::Focus(p) => Command::FocusPane(p),
    }
}

/// The command clicking `item` issues.
pub fn menu_command(item: MenuItem) -> (r: Command)
    ensures
        r == menu_command_of(item),
{
    match item {
        MenuItem::OpenProject => Command::OpenFolder,
        MenuItem::ReloadGzp => Command::ReloadActiveGzp,
        MenuItem::RevealInFileManager => Command::RevealActiveFileManager,
        MenuItem::ResetAllState => Command::ResetAllState,
        MenuItem::Quit => Command::Quit,
        MenuItem::ToggleInspector => Command::ToggleInspector,
        MenuItem::ToggleLeftSidebar => Command::ToggleLeftSidebar,
        MenuItem::ResetLayout => Command::ResetLayout,
        MenuItem::Focus(p) => Command::FocusPane(p),
    }
}

/// What clicking project file `index` at `path` asks for: with Shift held a
/// project file is loaded; otherwise the file is selected.
pub fn file_click_command(path: &str, index: usize, shift: bool) -> (r: Command)
    ensures
        r == if shift && path_extension(path@) == Some("gzp"@) {
            Command::LoadGzpFile(index)
        } else {
            Command::SelectFile(index)
        },
{
    if is_gzp(path) && shift {
        Command::LoadGzpFile(index)
    } else {
        Command::SelectFile(index)
    }
}

// === Dispatch ==============================================================

/// The open project, as commands see it.
#[derive(Debug, Clone, Copy, PartialEq, Eq, Structural)]
pub struct ProjectView {
    pub file_count: usize,
    pub active: Option<usize>,
    pub selected_file: Option<usize>,
}

/// The editor state commands change.
#[derive(Debug, Clone, Copy, PartialEq, Eq, Structural)]
pub struct UiState {
    pub focused_pane: Pane,
    pub palette_open: bool,
    pub inspector_visible: bool,
    pub project: Option<ProjectView>,
}

/// What the caller must do after a command.
#[derive(Debug, Clone, Copy, PartialEq, Eq, Structural)]
pub enum UiEffect {
    Nothing,
    /// Ask for a folder and open it as the project.
    PickFolder,
    /// Collapse the left sidebar when it is wider than 10 points, else open it
    /// to 240.
    ToggleLeftSidebar,
    /// Put sidebar widths and the timeline height back to their defaults.
    ResetLayout,
    /// Show project file `i` in the file manager.
    RevealFile(usize),
    /// Put the path of project file `i` on the clipboard.
    CopyFilePath(usize),
    /// Forget everything else too: recent projects, layout, window memory.
    ResetAll,
    /// Close the window.
    Close,
}

impl UiState {
    /// The state of a fresh editor.
    pub fn initial() -> (r: UiState)
        ensures
            r == initial_state(),
    {
        UiState { focused_pane: Pane::Sidebar, palette_open: false, inspector_visible: false, project: None }
    }
}

pub open spec fn initial_state() -> UiState {
    UiState { focused_pane: Pane::Sidebar, palette_open: false, inspector_visible: false, project: None }
}

/// Commands that are not done yet: the editor stops on them. So does
/// revealing or copying a selected file that is not in the project.
pub open spec fn dispatch_unfinished(s: UiState, cmd: Command) -> bool {
    match cmd {
        Command::LoadGzpFile(_) => s.project is Some,
        Command::ReloadActiveGzp => true,
        Command::PlayPause => true,
        Command::FrameForward => true,
        Command::FrameBackward => true,
        Command::SeekToStart => true,
        Command::SeekToEnd => true,
        Command::RevealActiveFileManager => s.project matches Some(p) && p.selected_file matches Some(i) && i
            >= p.file_count,
        Command::CopyActiveFilePath => s.project matches Some(p) && p.selected_file matches Some(i) && i
            >= p.file_count,
        _ => false,
    }
}

/// The selected file of the open project, when there is one.
pub open spec fn selected(s: UiState) -> Option<usize> {
    match s.project {
        Some(p) => p.selected_file,
        None => None,
    }
}

/// The state after `cmd` and what the caller must do.
pub open spec fn dispatched(s: UiState, cmd: Command, t: UiState, e: UiEffect) -> bool {
    match cmd {
        Command::ToggleCommandPalette => t == UiState { palette_open: !s.palette_open, ..s } && e
            == UiEffect::Nothing,
        Command::FocusPane(p) => t == UiState { focused_pane: p, ..s } && e == UiEffect::Nothing,
        Command::FocusNextPane => t == UiState {
            focused_pane: pane_at((pane_index(s.focused_pane) + 1) % pane_count()),
            ..s
        } && e == UiEffect::Nothing,
        Command::FocusPrevPane => t == UiState {
            focused_pane: pane_at((pane_index(s.focused_pane) + pane_count() - 1) % pane_count()),
            ..s
        } && e == UiEffect::Nothing,
        Command::Escape => t == UiState { palette_open: false, ..s } && e == UiEffect::Nothing,
        Command::ToggleInspector => t == UiState { inspector_visible: !s.inspector_visible, ..s } && e
            == UiEffect::Nothing,
        Command::ToggleLeftSidebar => t == s && e == UiEffect::ToggleLeftSidebar,
        Command::OpenFolder => t == s && e == UiEffect::PickFolder,
        Command::SelectFile(i) => e == UiEffect::Nothing && match s.project {
            Some(p) => t == UiState { project: Some(ProjectView { selected_file: Some(i), ..p }), ..s },
            None => t == s,
        },
        Command::RevealActiveFileManager => t == s && match selected(s) {
            Some(i) => e == UiEffect::RevealFile(i),
            None => e == UiEffect::Nothing,
        },
        Command::CopyActiveFilePath => t == s && match selected(s) {
            Some(i) => e == UiEffect::CopyFilePath(i),
            None => e == UiEffect::Nothing,
        },
        Command::TimelineZoomIn => t == s && e == UiEffect::Nothing,
        Command::TimelineZoomOut => t == s && e == UiEffect::Nothing,
        Command::ResetLayout => t == UiState { inspector_visible: false, ..s } && e == UiEffect::ResetLayout,
        Command::ResetAllState => t == initial_state() && e == UiEffect::ResetAll,
        Command::Quit => t == s && e == UiEffect::Close,
        Command::LoadGzpFile(_) => t == s && e == UiEffect::Nothing,
        _ => true,
    }
}

/// Carry out `cmd` on `state`.
pub fn dispatch(state: &mut UiState, cmd: Command) -> (e: UiEffect)
    requires
        !dispatch_unfinished(*old(state), cmd),
    ensures
        dispatched(*old(state), cmd, *final(state), e),
{
    match cmd {
        Command::ToggleCommandPalette => {
            state.palette_open = !state.palette_open;
            UiEffect::Nothing
        },
        Command::FocusPane(pane) => {
            state.focused_pane = pane;
            UiEffect::Nothing
        },
        Command::FocusNextPane => {
            state.focused_pane = state.focused_pane.next();
            UiEffect::Nothing
        },
        Command::FocusPrevPane => {
            state.focused_pane = state.focused_pane.prev();
            UiEffect::Nothing
        },
        Command::Escape => {
            if state.palette_open {
                state.palette_open = false;
            }
            UiEffect::Nothing
        },
        Command::ToggleInspector => {
            state.inspector_visible = !state.inspector_visible;
            UiEffect::Nothing
        },
        Command::ToggleLeftSidebar => UiEffect::ToggleLeftSidebar,
        Command::OpenFolder => UiEffect::PickFolder,
        Command::LoadGzpFile(_) => UiEffect::Nothing,
        Command::SelectFile(index) => {
            if let Some(p) = state.project {
                state.project = Some(ProjectView { selected_file: Some(index), ..p });
            }
            UiEffect::Nothing
        },
        Command::RevealActiveFileManager => match state.project {
            Some(p) => match p.selected_file {
                Some(i) => UiEffect::RevealFile(i),
                None => UiEffect::Nothing,
            },
            None => UiEffect::Nothing,
        },
        Command::CopyActiveFilePath => match state.project {
            Some(p) => match p.selected_file {
                Some(i) => UiEffect::CopyFilePath(i),
                None => UiEffect::Nothing,
            },
            None => UiEffect::Nothing,
        },
        Command::TimelineZoomIn => UiEffect::Nothing,
        Command::TimelineZoomOut => UiEffect::Nothing,
        Command::ResetLayout => {
            state.inspector_visible = false;
            UiEffect::ResetLayout
        },
        Command::ResetAllState => {
            *state = UiState::initial();
            UiEffect::ResetAll
        },
        Command::Quit => UiEffect::Close,
        _ => UiEffect::Nothing,
    }
}

/// Toggling the palette twice leaves the editor as it was.
pub proof fn lemma_palette_toggle_involutive(s: UiState, t: UiState, u: UiState, e1: UiEffect, e2: UiEffect)
    requires
        dispatched(s, Command::ToggleCommandPalette, t, e1),
        dispatched(t, Command::ToggleCommandPalette, u, e2),
    ensures
        u == s,
{
}

/// Focusing the next pane and then the previous one returns focus where it was.
pub proof fn lemma_focus_next_prev(s: UiState, t: UiState, u: UiState, e1: UiEffect, e2: UiEffect)
    requires
        dispatched(s, Command::FocusNextPane, t, e1),
        dispatched(t, Command::FocusPrevPane, u, e2),
    ensures
        u == s,
{
}

/// Escape always leaves the palette closed and changes nothing else.
pub proof fn lemma_escape_closes_palette(s: UiState, t: UiState, e: UiEffect)
    requires
        dispatched(s, Command::Escape, t, e),
    ensures
        !t.palette_open,
        t.focused_pane == s.focused_pane,
        t.inspector_visible == s.inspector_visible,
        t.project == s.project,
{
}

// === Keyboard ==============================================================

/// The keys the editor listens to; every other key is `Other`.
#[derive(Debug, Clone, Copy, PartialEq, Eq, Structural)]
pub enum Key {
    P,
    R,
    O,
    Q,
    Num1,
    Num2,
    Num3,
    Num4,
    Num5,
    Tab,
    Escape,
    I,
    Space,
    Period,
    Comma,
    Home,
    End,
    Equals,
    Plus,
    Minus,
    Other,
}

/// The keyboard state of one frame: modifiers held and keys pressed.
#[derive(Debug, Clone)]
pub struct KeyInput {
    /// The platform's command modifier (Ctrl, or Cmd on macOS).
    pub command: bool,
    pub shift: bool,
    /// Any modifier at all.
    pub any_modifier: bool,
    pub pressed: Vec<Key>,
}

pub open spec fn pressed(input: KeyInput, k: Key) -> bool {
    input.pressed@.contains(k)
}

/// `k` pressed with no modifier held.
pub open spec fn plain(input: KeyInput, k: Key) -> bool {
    pressed(input, k) && !input.any_modifier
}

pub open spec fn when(b: bool, c: Command) -> Seq<Command> {
    if b {
        seq![c]
    } else {
        Seq::empty()
    }
}

/// Commands of the shortcuts held with the command modifier, as their hints
/// read: Ctrl+P, Ctrl+R (reload), Ctrl+Shift+R (reveal), Ctrl+Q.
pub open spec fn modifier_part(input: KeyInput) -> Seq<Command> {
    when(input.command && pressed(input, Key::P), Command::ToggleCommandPalette) + when(
        input.command && !input.shift && pressed(input, Key::R),
        Command::ReloadActiveGzp,
    ) + when(input.command && input.shift && pressed(input, Key::R), Command::RevealActiveFileManager)
        + when(input.command && pressed(input, Key::Q), Command::Quit)
}

/// Focus commands of the digit keys: 1 to 4 focus the panes in order.
pub open spec fn digit_part(input: KeyInput) -> Seq<Command> {
    when(plain(input, Key::Num1), Command::FocusPane(Pane::Sidebar)) + when(
        plain(input, Key::Num2),
        Command::FocusPane(Pane::Viewer),
    ) + when(plain(input, Key::Num3), Command::FocusPane(Pane::Timeline)) + when(
        plain(input, Key::Num4),
        Command::FocusPane(Pane::Inspector),
    )
}

/// Commands of focus cycling, escape, playback, seeking and zoom keys.
pub open spec fn key_part(input: KeyInput) -> Seq<Command> {
    when(pressed(input, Key::Tab) && input.shift, Command::FocusPrevPane) + when(
        pressed(input, Key::Tab) && !input.shift,
        Command::FocusNextPane,
    ) + when(pressed(input, Key::Escape), Command::Escape) + when(
        plain(input, Key::I),
        Command::ToggleInspector,
    ) + when(plain(input, Key::Space), Command::PlayPause) + when(
        plain(input, Key::Period),
        Command::FrameForward,
    ) + when(plain(input, Key::Comma), Command::FrameBackward) + when(
        pressed(input, Key::Home),
        Command::SeekToStart,
    ) + when(pressed(input, Key::End), Command::SeekToEnd) + when(
        pressed(input, Key::Equals) || pressed(input, Key::Plus),
        Command::TimelineZoomIn,
    ) + when(pressed(input, Key::Minus), Command::TimelineZoomOut)
}

/// The commands the keyboard issues this frame, in order. Nothing while the
/// palette is open or a text field has focus.
pub open spec fn keyboard_commands(palette_open: bool, text_focused: bool, input: KeyInput) -> Seq<Command> {
    if palette_open || text_focused {
        Seq::empty()
    } else {
        modifier_part(input) + digit_part(input) + key_part(input)
    }
}

fn key_pressed(input: &KeyInput, k: Key) -> (r: bool)
    ensures
        r == pressed(*input, k),
{
    let mut i: usize = 0;
    while i < input.pressed.len()
        invariant
            i <= input.pressed@.len(),
            forall|j: int| 0 <= j < i ==> input.pressed@[j] != k,
        decreases input.pressed@.len() - i,
    {
        if input.pressed[i] == k {
            proof {
                assert(input.pressed@[i as int] == k);
            }
            return true;
        }
        i = i + 1;
    }
    false
}

fn push_if(v: &mut Vec<Command>, b: bool, c: Command)
    ensures
        final(v)@ == old(v)@ + when(b, c),
{
    if b {
        v.push(c);
    }
    proof {
        assert(final(v)@ =~= old(v)@ + when(b, c));
    }
}

fn modifier_commands(input: &KeyInput) -> (r: Vec<Command>)
    ensures
        r@ == modifier_part(*input),
{
    let mut c: Vec<Command> = Vec::new();
    let cmd = input.command;
    push_if(&mut c, cmd && key_pressed(input, Key::P), Command::ToggleCommandPalette);
    push_if(&mut c, cmd && !input.shift && key_pressed(input, Key::R), Command::ReloadActiveGzp);
    push_if(&mut c, cmd && input.shift && key_pressed(input, Key::R), Command::RevealActiveFileManager);
    push_if(&mut c, cmd && key_pressed(input, Key::Q), Command::Quit);
    proof {
        assert(c@ =~= modifier_part(*input));
    }
    c
}

fn digit_focus_commands(input: &KeyInput) -> (r: Vec<Command>)
    ensures
        r@ == digit_part(*input),
{
    let mut c: Vec<Command> = Vec::new();
    let panes = Pane::all();
    let digits = [Key::Num1, Key::Num2, Key::Num3, Key::Num4, Key::Num5];
    let plain_ok = !input.any_modifier;
    let mut i: usize = 0;
    while i < 5
        invariant
            i <= 5,
            panes@ == seq![Pane::Sidebar, Pane::Viewer, Pane::Timeline, Pane::Inspector],
            digits@ == seq![Key::Num1, Key::Num2, Key::Num3, Key::Num4, Key::Num5],
            plain_ok == !input.any_modifier,
            c@ == digit_commands(*input, i as int),
        decreases 5 - i,
    {
        let k = digits[i];
        if key_pressed(input, k) && plain_ok && i < panes.len() {
            c.push(Command::FocusPane(panes[i]));
        }
        proof {
            assert(c@ =~= digit_commands(*input, i + 1));
        }
        i = i + 1;
    }
    proof {
        reveal_with_fuel(digit_commands, 6);
        assert(c@ =~= digit_part(*input));
    }
    c
}

fn key_commands(input: &KeyInput) -> (r: Vec<Command>)
    ensures
        r@ == key_part(*input),
{
    let mut c: Vec<Command> = Vec::new();
    let plain_ok = !input.any_modifier;
    let tab = key_pressed(input, Key::Tab);
    push_if(&mut c, tab && input.shift, Command::FocusPrevPane);
    push_if(&mut c, tab && !input.shift, Command::FocusNextPane);
    push_if(&mut c, key_pressed(input, Key::Escape), Command::Escape);
    push_if(&mut c, key_pressed(input, Key::I) && plain_ok, Command::ToggleInspector);
    push_if(&mut c, key_pressed(input, Key::Space) && plain_ok, Command::PlayPause);
    push_if(&mut c, key_pressed(input, Key::Period) && plain_ok, Command::FrameForward);
    push_if(&mut c, key_pressed(input, Key::Comma) && plain_ok, Command::FrameBackward);
    push_if(&mut c, key_pressed(input, Key::Home), Command::SeekToStart);
    push_if(&mut c, key_pressed(input, Key::End), Command::SeekToEnd);
    let zoom_in = key_pressed(input, Key::Equals) || key_pressed(input, Key::Plus);
    push_if(&mut c, zoom_in, Command::TimelineZoomIn);
    push_if(&mut c, key_pressed(input, Key::Minus), Command::TimelineZoomOut);
    proof {
        assert(c@ =~= key_part(*input));
    }
    c
}

/// The commands the keyboard issues this frame. Digits 1 to 4 focus the
/// panes in order; 5 names no pane.
pub fn collect_global_keyboard_commands(palette_open: bool, text_focused: bool, input: &KeyInput) -> (r:
    Vec<Command>)
    ensures
        r@ == keyboard_commands(palette_open, text_focused, *input),
{
    if palette_open || text_focused {
        return Vec::new();
    }
    let mut c = modifier_commands(input);
    let mut d = digit_focus_commands(input);
    let mut k = key_commands(input);
    c.append(&mut d);
    c.append(&mut k);
    c
}

/// The focus commands of the digit keys among the first `n` of 1 to 5.
pub open spec fn digit_commands(input: KeyInput, n: int) -> Seq<Command>
    decreases n,
{
    if n <= 0 {
        Seq::empty()
    } else {
        let keys = seq![Key::Num1, Key::Num2, Key::Num3, Key::Num4, Key::Num5];
        digit_commands(input, n - 1) + when(
            plain(input, keys[n - 1]) && n - 1 < pane_count(),
            Command::FocusPane(pane_at(n - 1)),
        )
    }
}

// === What the menus, the keyboard and commands do ==========================

/// Each menu entry issues the command of its name, and no two entries issue
/// the same command.
pub proof fn lemma_menu_commands(a: MenuItem, b: MenuItem)
    ensures
        menu_command_of(MenuItem::OpenProject) == Command::OpenFolder,
        menu_command_of(MenuItem::ReloadGzp) == Command::ReloadActiveGzp,
        menu_command_of(MenuItem::RevealInFileManager) == Command::RevealActiveFileManager,
        menu_command_of(MenuItem::ResetAllState) == Command::ResetAllState,
        menu_command_of(MenuItem::Quit) == Command::Quit,
        menu_command_of(MenuItem::ToggleInspector) == Command::ToggleInspector,
        menu_command_of(MenuItem::ToggleLeftSidebar) == Command::ToggleLeftSidebar,
        menu_command_of(MenuItem::ResetLayout) == Command::ResetLayout,
        a matches MenuItem::Focus(p) ==> menu_command_of(a) == Command::FocusPane(p),
        a != b ==> menu_command_of(a) != menu_command_of(b),
{
}

/// What each command does to the editor and asks of its caller, in any state.
pub proof fn lemma_dispatch_effects(s: UiState, cmd: Command, t: UiState, e: UiEffect)
    requires
        dispatched(s, cmd, t, e),
    ensures
        cmd == Command::ToggleLeftSidebar ==> t == s && e == UiEffect::ToggleLeftSidebar,
        cmd == Command::OpenFolder ==> t == s && e == UiEffect::PickFolder,
        cmd == Command::Quit ==> t == s && e == UiEffect::Close,
        cmd == Command::ResetLayout ==> e == UiEffect::ResetLayout && !t.inspector_visible && t.focused_pane
            == s.focused_pane && t.palette_open == s.palette_open && t.project == s.project,
        cmd == Command::ResetAllState ==> e == UiEffect::ResetAll && t.focused_pane == Pane::Sidebar
            && !t.palette_open && !t.inspector_visible && t.project is None,
        cmd == Command::ToggleInspector ==> e == UiEffect::Nothing && t.inspector_visible
            == !s.inspector_visible && t.focused_pane == s.focused_pane && t.palette_open == s.palette_open
            && t.project == s.project,
        cmd == Command::ToggleCommandPalette ==> e == UiEffect::Nothing && t.palette_open == !s.palette_open
            && t.focused_pane == s.focused_pane && t.inspector_visible == s.inspector_visible && t.project
            == s.project,
        cmd == Command::Escape ==> e == UiEffect::Nothing && !t.palette_open && t.focused_pane
            == s.focused_pane && t.inspector_visible == s.inspector_visible && t.project == s.project,
        cmd matches Command::FocusPane(p) ==> e == UiEffect::Nothing && t.focused_pane == p && t.palette_open
            == s.palette_open && t.inspector_visible == s.inspector_visible && t.project == s.project,
        cmd == Command::TimelineZoomIn ==> t == s && e == UiEffect::Nothing,
        cmd == Command::TimelineZoomOut ==> t == s && e == UiEffect::Nothing,
        cmd matches Command::SelectFile(i) ==> e == UiEffect::Nothing && match s.project {
            Some(pv) => t.project == Some(
                ProjectView { file_count: pv.file_count, active: pv.active, selected_file: Some(i) },
            ) && t.focused_pane == s.focused_pane && t.palette_open == s.palette_open && t.inspector_visible
                == s.inspector_visible,
            None => t == s,
        },
        cmd == Command::RevealActiveFileManager ==> t == s && match s.project {
            Some(pv) => match pv.selected_file {
                Some(i) => e == UiEffect::RevealFile(i),
                None => e == UiEffect::Nothing,
            },
            None => e == UiEffect::Nothing,
        },
        cmd == Command::CopyActiveFilePath ==> t == s && match s.project {
            Some(pv) => match pv.selected_file {
                Some(i) => e == UiEffect::CopyFilePath(i),
                None => e == UiEffect::Nothing,
            },
            None => e == UiEffect::Nothing,
        },
{
}

/// A key pressed alone is pressed, and no other key is.
proof fn lemma_only_key(input: KeyInput, k: Key)
    requires
        input.pressed@ == seq![k],
    ensures
        forall|o: Key| #[trigger] pressed(input, o) <==> o == k,
{
    assert forall|o: Key| #[trigger] pressed(input, o) <==> o == k by {
        if o == k {
            assert(input.pressed@[0] == k);
        }
    }
}

/// The keyboard issues nothing while the palette is open or a text field has
/// focus.
pub proof fn lemma_keyboard_quiet(palette_open: bool, text_focused: bool, input: KeyInput)
    requires
        palette_open || text_focused,
    ensures
        keyboard_commands(palette_open, text_focused, input) == Seq::<Command>::empty(),
{
}

/// The zoom keys, pressed alone with any modifiers: `-` zooms the timeline
/// out, `+` and `=` zoom it in.
pub proof fn lemma_zoom_keys(input: KeyInput)
    ensures
        input.pressed@ == seq![Key::Minus] ==> keyboard_commands(false, false, input) == seq![
            Command::TimelineZoomOut,
        ],
        input.pressed@ == seq![Key::Plus] ==> keyboard_commands(false, false, input) == seq![
            Command::TimelineZoomIn,
        ],
        input.pressed@ == seq![Key::Equals] ==> keyboard_commands(false, false, input) == seq![
            Command::TimelineZoomIn,
        ],
{
    if input.pressed@ == seq![Key::Minus] {
        lemma_only_key(input, Key::Minus);
        assert(keyboard_commands(false, false, input) =~= seq![Command::TimelineZoomOut]);
    }
    if input.pressed@ == seq![Key::Plus] {
        lemma_only_key(input, Key::Plus);
        assert(keyboard_commands(false, false, input) =~= seq![Command::TimelineZoomIn]);
    }
    if input.pressed@ == seq![Key::Equals] {
        lemma_only_key(input, Key::Equals);
        assert(keyboard_commands(false, false, input) =~= seq![Command::TimelineZoomIn]);
    }
}

/// Keys pressed alone, palette closed, no text field focused: the
/// command-modifier shortcuts Ctrl+P (palette), Ctrl+R (reload),
/// Ctrl+Shift+R (reveal) and Ctrl+Q (quit); without the modifier they and
/// other keys issue nothing.
pub proof fn lemma_command_keys(input: KeyInput)
    ensures
        input.pressed@ == seq![Key::P] ==> keyboard_commands(false, false, input) == (if input.command { seq![Command::ToggleCommandPalette] } else { Seq::<Command>::empty() }),
        input.pressed@ == seq![Key::R] ==> keyboard_commands(false, false, input) == (if !input.command { Seq::<Command>::empty() } else if input.shift { seq![Command::RevealActiveFileManager] } else { seq![Command::ReloadActiveGzp] }),
        input.pressed@ == seq![Key::Q] ==> keyboard_commands(false, false, input) == (if input.command { seq![Command::Quit] } else { Seq::<Command>::empty() }),
        input.pressed@ == seq![Key::O] ==> keyboard_commands(false, false, input) == (Seq::<Command>::empty()),
        input.pressed@ == seq![Key::Other] ==> keyboard_commands(false, false, input) == (Seq::<Command>::empty()),
{
    if input.pressed@ == seq![Key::P] {
        assert(keyboard_commands(false, false, input) =~= (if input.command { seq![Command::ToggleCommandPalette] } else { Seq::<Command>::empty() })) by {
            lemma_only_key(input, Key::P);
        }
    }
    if input.pressed@ == seq![Key::R] {
        assert(keyboard_commands(false, false, input) =~= (if !input.command { Seq::<Command>::empty() } else if input.shift { seq![Command::RevealActiveFileManager] } else { seq![Command::ReloadActiveGzp] })) by {
            lemma_only_key(input, Key::R);
        }
    }
    if input.pressed@ == seq![Key::Q] {
        assert(keyboard_commands(false, false, input) =~= (if input.command { seq![Command::Quit] } else { Seq::<Command>::empty() })) by {
            lemma_only_key(input, Key::Q);
        }
    }
    if input.pressed@ == seq![Key::O] {
        assert(keyboard_commands(false, false, input) =~= (Seq::<Command>::empty())) by {
            lemma_only_key(input, Key::O);
        }
    }
    if input.pressed@ == seq![Key::Other] {
        assert(keyboard_commands(false, false, input) =~= (Seq::<Command>::empty())) by {
            lemma_only_key(input, Key::Other);
        }
    }
}

/// Keys pressed alone, palette closed, no text field focused, that act only
/// with no modifier held: `I` toggles the inspector, Space plays or pauses,
/// `.` and `,` step a frame, and the digits 1 to 4 focus the panes in order.
pub proof fn lemma_plain_keys(input: KeyInput)
    ensures
        input.pressed@ == seq![Key::I] ==> keyboard_commands(false, false, input) == (if input.any_modifier { Seq::<Command>::empty() } else { seq![Command::ToggleInspector] }),
        input.pressed@ == seq![Key::Space] ==> keyboard_commands(false, false, input) == (if input.any_modifier { Seq::<Command>::empty() } else { seq![Command::PlayPause] }),
        input.pressed@ == seq![Key::Period] ==> keyboard_commands(false, false, input) == (if input.any_modifier { Seq::<Command>::empty() } else { seq![Command::FrameForward] }),
        input.pressed@ == seq![Key::Comma] ==> keyboard_commands(false, false, input) == (if input.any_modifier { Seq::<Command>::empty() } else { seq![Command::FrameBackward] }),
        input.pressed@ == seq![Key::Num1] ==> keyboard_commands(false, false, input) == (if input.any_modifier { Seq::<Command>::empty() } else { seq![Command::FocusPane(Pane::Sidebar)] }),
        input.pressed@ == seq![Key::Num2] ==> keyboard_commands(false, false, input) == (if input.any_modifier { Seq::<Command>::empty() } else { seq![Command::FocusPane(Pane::Viewer)] }),
        input.pressed@ == seq![Key::Num3] ==> keyboard_commands(false, false, input) == (if input.any_modifier { Seq::<Command>::empty() } else { seq![Command::FocusPane(Pane::Timeline)] }),
        input.pressed@ == seq![Key::Num4] ==> keyboard_commands(false, false, input) == (if input.any_modifier { Seq::<Command>::empty() } else { seq![Command::FocusPane(Pane::Inspector)] }),
        input.pressed@ == seq![Key::Num5] ==> keyboard_commands(false, false, input) == (Seq::<Command>::empty()),
{
    if input.pressed@ == seq![Key::I] {
        assert(keyboard_commands(false, false, input) =~= (if input.any_modifier { Seq::<Command>::empty() } else { seq![Command::ToggleInspector] })) by {
            lemma_only_key(input, Key::I);
        }
    }
    if input.pressed@ == seq![Key::Space] {
        assert(keyboard_commands(false, false, input) =~= (if input.any_modifier { Seq::<Command>::empty() } else { seq![Command::PlayPause] })) by {
            lemma_only_key(input, Key::Space);
        }
    }
    if input.pressed@ == seq![Key::Period] {
        assert(keyboard_commands(false, false, input) =~= (if input.any_modifier { Seq::<Command>::empty() } else { seq![Command::FrameForward] })) by {
            lemma_only_key(input, Key::Period);
        }
    }
    if input.pressed@ == seq![Key::Comma] {
        assert(keyboard_commands(false, false, input) =~= (if input.any_modifier { Seq::<Command>::empty() } else { seq![Command::FrameBackward] })) by {
            lemma_only_key(input, Key::Comma);
        }
    }
    if input.pressed@ == seq![Key::Num1] {
        assert(keyboard_commands(false, false, input) =~= (if input.any_modifier { Seq::<Command>::empty() } else { seq![Command::FocusPane(Pane::Sidebar)] })) by {
            lemma_only_key(input, Key::Num1);
        }
    }
    if input.pressed@ == seq![Key::Num2] {
        assert(keyboard_commands(false, false, input) =~= (if input.any_modifier { Seq::<Command>::empty() } else { seq![Command::FocusPane(Pane::Viewer)] })) by {
            lemma_only_key(input, Key::Num2);
        }
    }
    if input.pressed@ == seq![Key::Num3] {
        assert(keyboard_commands(false, false, input) =~= (if input.any_modifier { Seq::<Command>::empty() } else { seq![Command::FocusPane(Pane::Timeline)] })) by {
            lemma_only_key(input, Key::Num3);
        }
    }
    if input.pressed@ == seq![Key::Num4] {
        assert(keyboard_commands(false, false, input) =~= (if input.any_modifier { Seq::<Command>::empty() } else { seq![Command::FocusPane(Pane::Inspector)] })) by {
            lemma_only_key(input, Key::Num4);
        }
    }
    if input.pressed@ == seq![Key::Num5] {
        assert(keyboard_commands(false, false, input) =~= (Seq::<Command>::empty())) by {
            lemma_only_key(input, Key::Num5);
        }
    }
}

/// Keys pressed alone, palette closed, no text field focused, that act with
/// any modifiers: Escape escapes, Home and End seek to the start and the end,
/// and Tab moves focus to the next pane, or to the previous one with Shift.
pub proof fn lemma_navigation_keys(input: KeyInput)
    ensures
        input.pressed@ == seq![Key::Escape] ==> keyboard_commands(false, false, input) == (seq![Command::Escape]),
        input.pressed@ == seq![Key::Home] ==> keyboard_commands(false, false, input) == (seq![Command::SeekToStart]),
        input.pressed@ == seq![Key::End] ==> keyboard_commands(false, false, input) == (seq![Command::SeekToEnd]),
        input.pressed@ == seq![Key::Tab] ==> keyboard_commands(false, false, input) == (if input.shift { seq![Command::FocusPrevPane] } else { seq![Command::FocusNextPane] }),
{
    if input.pressed@ == seq![Key::Escape] {
        assert(keyboard_commands(false, false, input) =~= (seq![Command::Escape])) by {
            lemma_only_key(input, Key::Escape);
        }
    }
    if input.pressed@ == seq![Key::Home] {
        assert(keyboard_commands(false, false, input) =~= (seq![Command::SeekToStart])) by {
            lemma_only_key(input, Key::Home);
        }
    }
    if input.pressed@ == seq![Key::End] {
        assert(keyboard_commands(false, false, input) =~= (seq![Command::SeekToEnd])) by {
            lemma_only_key(input, Key::End);
        }
    }
    if input.pressed@ == seq![Key::Tab] {
        assert(keyboard_commands(false, false, input) =~= (if input.shift { seq![Command::FocusPrevPane] } else { seq![Command::FocusNextPane] })) by {
            lemma_only_key(input, Key::Tab);
        }
    }
}

} // verus!
