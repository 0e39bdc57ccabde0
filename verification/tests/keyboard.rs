use yinhe_editor::keyboard::{keyboard_actions, FileAction, KeyboardActions, Tool};
use yinhe_editor::shortcuts::{KeyCombo, Keybindings, ACTION_SAVE};

fn press(command: bool, shift: bool, key: &str) -> Option<KeyCombo> {
    Some(KeyCombo { command, shift, alt: false, key: key.to_string() })
}

#[test]
fn blocked_or_no_press_triggers_nothing() {
    let kb = Keybindings::default();
    let none = KeyboardActions::none();
    assert_eq!(keyboard_actions(&kb, press(false, false, "Space"), true, false, false, false, false), none);
    assert_eq!(keyboard_actions(&kb, press(false, false, "Space"), false, true, false, false, false), none);
    assert_eq!(keyboard_actions(&kb, press(false, false, "Space"), false, false, true, false, false), none);
    assert_eq!(keyboard_actions(&kb, None, false, false, false, false, false), none);
}

#[test]
fn space_plays_or_pauses() {
    let kb = Keybindings::default();
    let r = keyboard_actions(&kb, press(false, false, "Space"), false, false, false, false, false);
    assert!(r.toggle_play && !r.pause_return);
    let r = keyboard_actions(&kb, press(false, false, "Space"), false, false, false, true, false);
    assert!(!r.toggle_play && r.pause_return);
}

#[test]
fn file_action_left_to_menu_on_macos() {
    let kb = Keybindings::default();
    let r = keyboard_actions(&kb, press(true, false, "S"), false, false, false, false, false);
    assert_eq!(r.file_action, Some(FileAction::Save));
    let r = keyboard_actions(&kb, press(true, false, "S"), false, false, false, false, true);
    assert_eq!(r.file_action, None);
    // a second binding is still handled here
    let mut kb = Keybindings::default();
    kb.add(ACTION_SAVE, KeyCombo { command: false, shift: false, alt: false, key: "F2".into() });
    let r = keyboard_actions(&kb, press(false, false, "F2"), false, false, false, false, true);
    assert_eq!(r.file_action, Some(FileAction::Save));
}

#[test]
fn undo_redo_and_aliases() {
    let kb = Keybindings::default();
    let r = keyboard_actions(&kb, press(true, false, "Z"), false, false, false, false, false);
    assert!(r.undo && !r.redo);
    let r = keyboard_actions(&kb, press(true, true, "Z"), false, false, false, false, false);
    assert!(r.redo && !r.undo);
    let r = keyboard_actions(&kb, press(true, false, "Y"), false, false, false, false, true);
    assert!(r.redo);
    let r = keyboard_actions(&kb, press(false, false, "Backspace"), false, false, false, false, false);
    assert!(r.delete_selected);
    // on macOS the menu handles Cmd+Z
    let r = keyboard_actions(&kb, press(true, false, "Z"), false, false, false, false, true);
    assert!(!r.undo);
}

#[test]
fn digits_pick_tools_even_on_macos() {
    let kb = Keybindings::default();
    let r = keyboard_actions(&kb, press(false, false, "4"), false, false, false, false, true);
    assert_eq!(r.tool_to_activate, Some(Tool::Pencil));
    let r = keyboard_actions(&kb, press(false, false, "9"), false, false, false, false, false);
    assert_eq!(r.tool_to_activate, None);
    assert_eq!(r, KeyboardActions::none());
}
