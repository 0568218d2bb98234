//! Which key events reach the remote session, and in which form.
//!
//! Plain text typing can be forwarded as Unicode characters, so that the
//! remote keyboard layout does not matter; anything involving modifiers is
//! forwarded as keycodes so that remote shortcuts work. Unless system
//! shortcuts are inhibited, the Super key stays local.

use std::collections::{HashMap, HashSet};

use vstd::prelude::*;

verus! {

broadcast use vstd::std_specs::hash::group_hash_axioms;

/// X11 keysyms of the modifier keys that start shortcuts.
pub const KEY_CONTROL_L: u32 = 0xffe3;
pub const KEY_CONTROL_R: u32 = 0xffe4;
pub const KEY_META_L: u32 = 0xffe7;
pub const KEY_META_R: u32 = 0xffe8;
pub const KEY_ALT_L: u32 = 0xffe9;
pub const KEY_ALT_R: u32 = 0xffea;
pub const KEY_SUPER_L: u32 = 0xffeb;
pub const KEY_SUPER_R: u32 = 0xffec;
pub const KEY_HYPER_L: u32 = 0xffed;
pub const KEY_HYPER_R: u32 = 0xffee;

/// GDK modifier bits: Shift, Control, Alt, Super, Hyper and Meta.
pub const SHORTCUT_MODIFIER_MASK: u32 = (1 << 0) | (1 << 2) | (1 << 3) | (1 << 26) | (1 << 27) | (1
    << 28);

pub open spec fn is_shortcut_modifier(keyval: u32) -> bool {
    keyval == KEY_CONTROL_L || keyval == KEY_CONTROL_R || keyval == KEY_ALT_L || keyval
        == KEY_ALT_R || keyval == KEY_SUPER_L || keyval == KEY_SUPER_R || keyval == KEY_HYPER_L
        || keyval == KEY_HYPER_R || keyval == KEY_META_L || keyval == KEY_META_R
}

pub open spec fn is_super_key(keyval: u32) -> bool {
    keyval == KEY_SUPER_L || keyval == KEY_SUPER_R
}

/// `char::is_control`: the C0 and C1 control characters.
pub open spec fn is_control_char(c: char) -> bool {
    (c as int) <= 0x1F || (0x7F <= (c as int) <= 0x9F)
}

fn shortcut_modifier(keyval: u32) -> (r: bool)
    ensures
        r == is_shortcut_modifier(keyval),
{
    keyval == KEY_CONTROL_L || keyval == KEY_CONTROL_R || keyval == KEY_ALT_L || keyval
        == KEY_ALT_R || keyval == KEY_SUPER_L || keyval == KEY_SUPER_R || keyval == KEY_HYPER_L
        || keyval == KEY_HYPER_R || keyval == KEY_META_L || keyval == KEY_META_R
}

fn super_key(keyval: u32) -> (r: bool)
    ensures
        r == is_super_key(keyval),
{
    keyval == KEY_SUPER_L || keyval == KEY_SUPER_R
}

fn control_char(c: char) -> (r: bool)
    ensures
        r == is_control_char(c),
{
    let v = c as u32;
    v <= 0x1F || (0x7F <= v && v <= 0x9F)
}

/// What is sent to the remote side for a key event.
#[derive(Debug, Clone, Copy, PartialEq, Eq, Structural)]
pub enum KeyAction {
    /// A keycode, pressed or released.
    Key(u16, bool),
    /// A Unicode character, pressed or released.
    Unicode(char, bool),
}

/// The handler's state as plain values.
#[verifier::ext_equal]
pub struct KeyHandlerModel {
    pub forward_unicode: bool,
    pub inhibit_system_shortcuts: bool,
    /// Keys whose press went out as a character, and that character.
    pub unicode_keys: Map<u16, char>,
    /// Shortcut modifier keys currently held.
    pub pressed_modifiers: Set<u16>,
    /// Keys kept local whose release must be swallowed too.
    pub filtered_keys: Set<u16>,
}

/// The state after a key press and what is sent for it (`None`: nothing,
/// the key stays local).
pub open spec fn press_spec(m: KeyHandlerModel, keyval: u32, keycode: u16, modifiers: u32, unicode: Option<char>) -> (KeyHandlerModel, Option<KeyAction>) {
    let pressed = if is_shortcut_modifier(keyval) {
        m.pressed_modifiers.insert(keycode)
    } else {
        m.pressed_modifiers
    };
    if !m.inhibit_system_shortcuts && is_super_key(keyval) {
        (
            KeyHandlerModel {
                pressed_modifiers: pressed,
                filtered_keys: m.filtered_keys.insert(keycode),
                unicode_keys: m.unicode_keys.remove(keycode),
                ..m
            },
            None,
        )
    } else if m.forward_unicode && modifiers & SHORTCUT_MODIFIER_MASK == 0 && pressed.is_empty()
        && unicode is Some && !is_control_char(unicode->0) {
        (
            KeyHandlerModel {
                pressed_modifiers: pressed,
                unicode_keys: m.unicode_keys.insert(keycode, unicode->0),
                ..m
            },
            Some(KeyAction::Unicode(unicode->0, true)),
        )
    } else {
        (
            KeyHandlerModel {
                pressed_modifiers: pressed,
                unicode_keys: m.unicode_keys.remove(keycode),
                ..m
            },
            Some(KeyAction::Key(keycode, true)),
        )
    }
}

/// The state after a key release and what is sent for it.
pub open spec fn release_spec(m: KeyHandlerModel, keycode: u16) -> (KeyHandlerModel, Option<KeyAction>) {
    if m.filtered_keys.contains(keycode) {
        (
            KeyHandlerModel {
                filtered_keys: m.filtered_keys.remove(keycode),
                pressed_modifiers: m.pressed_modifiers.remove(keycode),
                ..m
            },
            None,
        )
    } else if m.unicode_keys.contains_key(keycode) {
        (
            KeyHandlerModel {
                unicode_keys: m.unicode_keys.remove(keycode),
                pressed_modifiers: m.pressed_modifiers.remove(keycode),
                ..m
            },
            Some(KeyAction::Unicode(m.unicode_keys[keycode], false)),
        )
    } else {
        (
            KeyHandlerModel { pressed_modifiers: m.pressed_modifiers.remove(keycode), ..m },
            Some(KeyAction::Key(keycode, false)),
        )
    }
}

/// Tracks pressed keys to forward each release in the form its press took.
#[derive(Debug)]
pub struct KeyHandler {
    forward_unicode: bool,
    inhibit_system_shortcuts: bool,
    unicode_keys: HashMap<u16, char>,
    pressed_shortcut_modifier_keys: HashSet<u16>,
    filtered_system_shortcut_keys: HashSet<u16>,
}

impl View for KeyHandler {
    type V = KeyHandlerModel;

    closed spec fn view(&self) -> KeyHandlerModel {
        KeyHandlerModel {
            forward_unicode: self.forward_unicode,
            inhibit_system_shortcuts: self.inhibit_system_shortcuts,
            unicode_keys: self.unicode_keys@,
            pressed_modifiers: self.pressed_shortcut_modifier_keys@,
            filtered_keys: self.filtered_system_shortcut_keys@,
        }
    }
}

impl KeyHandler {
    /// A handler with nothing pressed; Unicode forwarding and shortcut
    /// inhibition are off.
    pub fn new() -> (h: KeyHandler)
        ensures
            h@ == (KeyHandlerModel {
                forward_unicode: false,
                inhibit_system_shortcuts: false,
                unicode_keys: Map::empty(),
                pressed_modifiers: Set::empty(),
                filtered_keys: Set::empty(),
            }),
    {
        KeyHandler {
            forward_unicode: false,
            inhibit_system_shortcuts: false,
            unicode_keys: HashMap::new(),
            pressed_shortcut_modifier_keys: HashSet::new(),
            filtered_system_shortcut_keys: HashSet::new(),
        }
    }

    pub fn set_forward_unicode(&mut self, enabled: bool)
        ensures
            final(self)@ == (KeyHandlerModel { forward_unicode: enabled, ..old(self)@ }),
    {
        self.forward_unicode = enabled;
    }

    pub fn set_inhibit_system_shortcuts(&mut self, enabled: bool)
        ensures
            final(self)@ == (KeyHandlerModel { inhibit_system_shortcuts: enabled, ..old(self)@ }),
    {
        self.inhibit_system_shortcuts = enabled;
    }

    /// Whether the system shortcuts of the window should be inhibited: only
    /// while the session is active (connected and focused) and the user
    /// asked for it.
    pub fn system_shortcuts_inhibited(&self, active: bool) -> (r: bool)
        ensures
            r == (active && self@.inhibit_system_shortcuts),
    {
        active && self.inhibit_system_shortcuts
    }

    /// Handles a key press. `keyval` is the keysym, `keycode` the hardware
    /// keycode (only its low 16 bits count), `modifiers` the GDK modifier
    /// state and `unicode` the character the keysym stands for, if any.
    pub fn handle_key_pressed(&mut self, keyval: u32, keycode: u32, modifiers: u32, unicode: Option<char>) -> (action: Option<KeyAction>)
        ensures
            (final(self)@, action) == press_spec(old(self)@, keyval, keycode as u16, modifiers, unicode),
    {
        let keycode = keycode as u16;
        if shortcut_modifier(keyval) {
            self.pressed_shortcut_modifier_keys.insert(keycode);
        }
        if !self.inhibit_system_shortcuts && super_key(keyval) {
            self.filtered_system_shortcut_keys.insert(keycode);
            self.unicode_keys.remove(&keycode);
            return None;
        }
        let plain = self.forward_unicode && modifiers & SHORTCUT_MODIFIER_MASK == 0
            && self.pressed_shortcut_modifier_keys.is_empty();
        match unicode {
            Some(ch) if plain && !control_char(ch) => {
                self.unicode_keys.insert(keycode, ch);
                Some(KeyAction::Unicode(ch, true))
            },
            _ => {
                self.unicode_keys.remove(&keycode);
                Some(KeyAction::Key(keycode, true))
            },
        }
    }

    /// Handles a key release, in the form the key's press took.
    pub fn handle_key_released(&mut self, keycode: u32) -> (action: Option<KeyAction>)
        ensures
            (final(self)@, action) == release_spec(old(self)@, keycode as u16),
    {
        let keycode = keycode as u16;
        let ghost filtered_before = self.filtered_system_shortcut_keys@;
        if self.filtered_system_shortcut_keys.remove(&keycode) {
            self.pressed_shortcut_modifier_keys.remove(&keycode);
            return None;
        }
        assert(self.filtered_system_shortcut_keys@ =~= filtered_before);
        let ghost before = self.unicode_keys@;
        let action = match self.unicode_keys.remove(&keycode) {
            Some(ch) => KeyAction::Unicode(ch, false),
            None => {
                assert(self.unicode_keys@ =~= before);
                KeyAction::Key(keycode, false)
            },
        };
        self.pressed_shortcut_modifier_keys.remove(&keycode);
        Some(action)
    }
}

impl Default for KeyHandler {
    fn default() -> (h: KeyHandler)
        ensures
            h@ == (KeyHandlerModel {
                forward_unicode: false,
                inhibit_system_shortcuts: false,
                unicode_keys: Map::empty(),
                pressed_modifiers: Set::empty(),
                filtered_keys: Set::empty(),
            }),
    {
        KeyHandler::new()
    }
}

/// A key released right after its press goes out in the form of its press:
/// a character press is released as that character, a keycode press as
/// that keycode, and a key kept local stays local. (A key whose earlier
/// press was kept local and never released is excluded: its next release is
/// swallowed whatever form the new press took.)
pub proof fn release_matches_press(m: KeyHandlerModel, keyval: u32, keycode: u16, modifiers: u32, unicode: Option<char>)
    requires
        !m.filtered_keys.contains(keycode),
    ensures
        ({
            let (after_press, pressed) = press_spec(m, keyval, keycode, modifiers, unicode);
            let (after_release, released) = release_spec(after_press, keycode);
            &&& pressed matches Some(KeyAction::Unicode(c, true)) ==> released == Some(
                KeyAction::Unicode(c, false),
            )
            &&& pressed matches Some(KeyAction::Key(k, true)) ==> released == Some(
                KeyAction::Key(k, false),
            )
            &&& pressed is None ==> released is None
            &&& !after_release.pressed_modifiers.contains(keycode)
            &&& !after_release.unicode_keys.contains_key(keycode)
        }),
{
}

/// A key whose character is a control character (U+0000 to U+001F, or
/// U+007F to U+009F, as `char::is_control` has it) is never sent as that
/// character: its press goes out as the keycode, or not at all when it is
/// kept local.
pub proof fn control_characters_go_out_as_keycodes(m: KeyHandlerModel, keyval: u32, keycode: u16, modifiers: u32, c: char)
    requires
        (c as int) <= 0x1F || (0x7F <= (c as int) && (c as int) <= 0x9F),
    ensures
        press_spec(m, keyval, keycode, modifiers, Some(c)).1 == Some(KeyAction::Key(keycode, true))
            || press_spec(m, keyval, keycode, modifiers, Some(c)).1 is None,
{
}

} // verus!
