use jamon::ui::app::{
    collect_global_keyboard_commands, dispatch, file_click_command, first_gzp, is_gzp, menu_command, Key, KeyInput,
    MenuItem, ProjectView, UiEffect, UiState,
};
use jamon::ui::command::{all_commands, Command, Pane};
use jamon::ui::palette::{entry_label, palette_outcome, CommandPalette};
use jamon::ui::state::View;

fn keys(command: bool, shift: bool, pressed: Vec<Key>) -> KeyInput {
    KeyInput { command, shift, any_modifier: command || shift, pressed }
}

#[test]
fn panes_cycle_both_ways() {
    let mut p = Pane::Sidebar;
    for _ in 0..4 {
        assert_eq!(p.next().prev(), p);
        p = p.next();
    }
    assert_eq!(p, Pane::Sidebar);
    assert_eq!(Pane::Sidebar.prev(), Pane::Inspector);
    assert_eq!(Pane::all(), vec![Pane::Sidebar, Pane::Viewer, Pane::Timeline, Pane::Inspector]);
}

#[test]
fn command_labels_and_hints() {
    assert_eq!(Command::FocusPane(Pane::Timeline).label(), "Focus Timeline");
    assert_eq!(Command::ToggleCommandPalette.shortcut_hint(), Some("Ctrl+Shift+P"));
    assert_eq!(Command::OpenFolder.shortcut_hint(), None);
    assert_eq!(entry_label(Command::Quit), "Quit  (Ctrl+Q)");
    assert_eq!(entry_label(Command::OpenFolder), "Open Folder");
}

#[test]
fn palette_lists_every_command_once() {
    let all = all_commands();
    assert_eq!(all.len(), 23);
    for (i, a) in all.iter().enumerate() {
        for b in &all[i + 1..] {
            assert_ne!(a, b);
        }
    }
}

#[test]
fn palette_filters_case_insensitively() {
    let mut palette = CommandPalette::default();
    assert!(!palette.open);
    assert_eq!(palette.listed_commands().len(), all_commands().len());
    palette.query = "ZOOM".to_string();
    assert_eq!(palette.listed_commands(), vec![Command::TimelineZoomIn, Command::TimelineZoomOut]);
    palette.query = "no such command".to_string();
    assert!(palette.listed_commands().is_empty());
}

#[test]
fn closing_the_palette_escapes() {
    assert_eq!(palette_outcome(false, false, None), None);
    assert_eq!(palette_outcome(true, false, None), Some(Command::Escape));
    assert_eq!(palette_outcome(true, false, Some(Command::Quit)), Some(Command::Quit));
    assert_eq!(palette_outcome(true, true, None), None);
}

#[test]
fn dispatch_toggles_and_focuses() {
    let mut s = UiState::initial();
    assert_eq!(dispatch(&mut s, Command::ToggleCommandPalette), UiEffect::Nothing);
    assert!(s.palette_open);
    dispatch(&mut s, Command::Escape);
    assert!(!s.palette_open);
    dispatch(&mut s, Command::FocusNextPane);
    assert_eq!(s.focused_pane, Pane::Viewer);
    dispatch(&mut s, Command::FocusPrevPane);
    dispatch(&mut s, Command::FocusPrevPane);
    assert_eq!(s.focused_pane, Pane::Inspector);
    dispatch(&mut s, Command::ToggleInspector);
    assert!(s.inspector_visible);
    assert_eq!(dispatch(&mut s, Command::ResetLayout), UiEffect::ResetLayout);
    assert!(!s.inspector_visible);
    assert_eq!(dispatch(&mut s, Command::Quit), UiEffect::Close);
    assert_eq!(dispatch(&mut s, Command::ResetAllState), UiEffect::ResetAll);
    assert_eq!(s, UiState::initial());
}

#[test]
fn dispatch_acts_on_the_selected_file() {
    let mut s = UiState::initial();
    assert_eq!(dispatch(&mut s, Command::CopyActiveFilePath), UiEffect::Nothing);
    s.project = Some(ProjectView { file_count: 3, active: None, selected_file: None });
    dispatch(&mut s, Command::SelectFile(2));
    assert_eq!(s.project.map(|p| p.selected_file), Some(Some(2)));
    assert_eq!(dispatch(&mut s, Command::RevealActiveFileManager), UiEffect::RevealFile(2));
    assert_eq!(dispatch(&mut s, Command::CopyActiveFilePath), UiEffect::CopyFilePath(2));
    assert_eq!(dispatch(&mut s, Command::OpenFolder), UiEffect::PickFolder);
}

#[test]
fn keyboard_shortcuts_issue_commands_in_order() {
    let cmds = collect_global_keyboard_commands(false, false, &keys(true, false, vec![Key::P, Key::Q]));
    assert_eq!(cmds, vec![Command::ToggleCommandPalette, Command::Quit]);
    let cmds = collect_global_keyboard_commands(false, false, &keys(false, true, vec![Key::Tab]));
    assert_eq!(cmds, vec![Command::FocusPrevPane]);
    let cmds = collect_global_keyboard_commands(false, false, &keys(false, false, vec![Key::Num2, Key::Space, Key::Plus]));
    assert_eq!(cmds, vec![Command::FocusPane(Pane::Viewer), Command::PlayPause, Command::TimelineZoomIn]);
    assert!(collect_global_keyboard_commands(true, false, &keys(true, false, vec![Key::P])).is_empty());
    assert!(collect_global_keyboard_commands(false, true, &keys(false, false, vec![Key::I])).is_empty());
}

#[test]
fn project_files_by_extension() {
    assert!(is_gzp("/tmp/x.gzp"));
    assert!(!is_gzp("/tmp/x.gzp.bak"));
    assert!(!is_gzp("/tmp/gzp"));
    let paths = vec!["a.mp4".to_string(), "b.gzp".to_string(), "c.gzp".to_string()];
    assert_eq!(first_gzp(&paths), Some(1));
}

#[test]
fn default_view_is_the_graph() {
    assert_eq!(View::default(), View::Graph);
}

#[test]
fn menus_and_file_clicks_issue_commands() {
    assert_eq!(menu_command(MenuItem::OpenProject), Command::OpenFolder);
    assert_eq!(menu_command(MenuItem::Focus(Pane::Timeline)), Command::FocusPane(Pane::Timeline));
    assert_eq!(file_click_command("p/main.gzp", 3, true), Command::LoadGzpFile(3));
    assert_eq!(file_click_command("p/main.gzp", 3, false), Command::SelectFile(3));
    assert_eq!(file_click_command("p/clip.mp4", 1, true), Command::SelectFile(1));
}

#[test]
fn reveal_and_reload_follow_their_hints() {
    let reveal = collect_global_keyboard_commands(false, false, &keys(true, true, vec![Key::R]));
    assert_eq!(reveal, vec![Command::RevealActiveFileManager]);
    let reload = collect_global_keyboard_commands(false, false, &keys(true, false, vec![Key::R]));
    assert_eq!(reload, vec![Command::ReloadActiveGzp]);
    assert_eq!(Command::RevealActiveFileManager.shortcut_hint(), Some("Ctrl+Shift+R"));
}
