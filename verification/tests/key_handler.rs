use longlens::key_handler::{KeyAction, KeyHandler, KEY_SUPER_L};

const KEY_A: u32 = 0x61;
const CONTROL_MASK: u32 = 1 << 2;

#[test]
fn unicode_is_forwarded_without_modifiers() {
    let mut handler = KeyHandler::default();
    handler.set_forward_unicode(true);
    let mut events = Vec::new();
    events.extend(handler.handle_key_pressed(KEY_A, 38, 0, Some('a')));
    events.extend(handler.handle_key_released(38));
    assert_eq!(
        events,
        vec![KeyAction::Unicode('a', true), KeyAction::Unicode('a', false)]
    );
}

#[test]
fn unicode_with_modifiers_is_forwarded_as_keycodes() {
    let mut handler = KeyHandler::default();
    handler.set_forward_unicode(true);
    let mut events = Vec::new();
    events.extend(handler.handle_key_pressed(KEY_A, 38, CONTROL_MASK, Some('a')));
    events.extend(handler.handle_key_released(38));
    assert_eq!(events, vec![KeyAction::Key(38, true), KeyAction::Key(38, false)]);
}

#[test]
fn super_is_filtered_when_system_shortcuts_are_not_inhibited() {
    let mut handler = KeyHandler::default();
    handler.set_inhibit_system_shortcuts(false);
    let mut events = Vec::new();
    events.extend(handler.handle_key_pressed(KEY_SUPER_L, 133, 0, None));
    events.extend(handler.handle_key_released(133));
    assert!(events.is_empty());
}

#[test]
fn super_is_forwarded_when_system_shortcuts_are_inhibited() {
    let mut handler = KeyHandler::default();
    handler.set_inhibit_system_shortcuts(true);
    assert!(handler.system_shortcuts_inhibited(true));
    assert!(!handler.system_shortcuts_inhibited(false));
    let mut events = Vec::new();
    events.extend(handler.handle_key_pressed(KEY_SUPER_L, 133, 0, None));
    events.extend(handler.handle_key_released(133));
    assert_eq!(events, vec![KeyAction::Key(133, true), KeyAction::Key(133, false)]);
}

#[test]
fn unicode_is_not_forwarded_when_disabled() {
    let mut handler = KeyHandler::new();
    assert_eq!(
        handler.handle_key_pressed(KEY_A, 38, 0, Some('a')),
        Some(KeyAction::Key(38, true))
    );
    assert_eq!(handler.handle_key_released(38), Some(KeyAction::Key(38, false)));
}

#[test]
fn held_shortcut_modifier_turns_characters_into_keycodes() {
    let mut handler = KeyHandler::default();
    handler.set_forward_unicode(true);
    // Control_L held down (keycode 37), then "a".
    assert_eq!(handler.handle_key_pressed(0xffe3, 37, 0, None), Some(KeyAction::Key(37, true)));
    assert_eq!(
        handler.handle_key_pressed(KEY_A, 38, 0, Some('a')),
        Some(KeyAction::Key(38, true))
    );
    assert_eq!(handler.handle_key_released(38), Some(KeyAction::Key(38, false)));
    assert_eq!(handler.handle_key_released(37), Some(KeyAction::Key(37, false)));
    // With the modifier released, characters go out as text again.
    assert_eq!(
        handler.handle_key_pressed(KEY_A, 38, 0, Some('a')),
        Some(KeyAction::Unicode('a', true))
    );
}

#[test]
fn control_characters_are_sent_as_keycodes() {
    let mut handler = KeyHandler::default();
    handler.set_forward_unicode(true);
    assert_eq!(
        handler.handle_key_pressed(0xff0d, 36, 0, Some('\r')),
        Some(KeyAction::Key(36, true))
    );
}
