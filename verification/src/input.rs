//! Translation of local input into FreeRDP input flags and scancodes.

use vstd::prelude::*;

verus! {

pub const PTR_FLAGS_HWHEEL: u16 = 0x0400;
pub const PTR_FLAGS_WHEEL: u16 = 0x0200;
pub const PTR_FLAGS_WHEEL_NEGATIVE: u16 = 0x0100;
pub const PTR_FLAGS_MOVE: u16 = 0x0800;
pub const PTR_FLAGS_DOWN: u16 = 0x8000;
pub const PTR_FLAGS_BUTTON1: u16 = 0x1000;
pub const PTR_FLAGS_BUTTON2: u16 = 0x2000;
pub const PTR_FLAGS_BUTTON3: u16 = 0x4000;

/// GDK's number for the primary (usually left) button.
pub const BUTTON_PRIMARY: u32 = 1;
/// GDK's number for the middle button.
pub const BUTTON_MIDDLE: u32 = 2;
/// GDK's number for the secondary (usually right) button.
pub const BUTTON_SECONDARY: u32 = 3;

/// The FreeRDP button flag for a GDK button: primary, secondary and middle
/// are buttons 1, 2 and 3; other buttons are not forwarded.
pub fn mouse_button(gdk_button: u32) -> (flag: Option<u16>)
    ensures
        flag == (if gdk_button == BUTTON_PRIMARY {
            Some(PTR_FLAGS_BUTTON1)
        } else if gdk_button == BUTTON_SECONDARY {
            Some(PTR_FLAGS_BUTTON2)
        } else if gdk_button == BUTTON_MIDDLE {
            Some(PTR_FLAGS_BUTTON3)
        } else {
            None
        }),
{
    if gdk_button == BUTTON_PRIMARY {
        Some(PTR_FLAGS_BUTTON1)
    } else if gdk_button == BUTTON_SECONDARY {
        Some(PTR_FLAGS_BUTTON2)
    } else if gdk_button == BUTTON_MIDDLE {
        Some(PTR_FLAGS_BUTTON3)
    } else {
        None
    }
}

/// The Windows scancode that the `keycode` crate's table gives for an XKB
/// keycode; `None` for keycodes that the table does not know.
pub uninterp spec fn xkb_win_code(xkb: u16) -> Option<u16>;

/// Looks the XKB keycode up with `keycode::KeyMap::from_key_mapping`
/// (`KeyMapping::Xkb`) and returns the entry's `win` field. The table lookup
/// depends on the keycode alone, so the result is named by `xkb_win_code`.
#[verifier::external_body]
fn lookup_win_code(xkb: u16) -> (win: Option<u16>)
    ensures
        win == xkb_win_code(xkb),
{
    match keycode::KeyMap::from_key_mapping(keycode::KeyMapping::Xkb(xkb)) {
        Ok(map) => Some(map.win),
        Err(_) => None,
    }
}

/// FreeRDP's form of a Windows scancode: the `0xE0` and `0xE1` extended
/// prefixes become the flags `0x100` and `0x200` on the low byte.
pub open spec fn freerdp_scancode(win: u16) -> u32 {
    if win / 256 == 0xE0 {
        (win % 256 + 0x100) as u32
    } else if win / 256 == 0xE1 {
        (win % 256 + 0x200) as u32
    } else {
        win as u32
    }
}

/// Converts a Windows scancode to FreeRDP's form.
pub fn extended_scancode(win: u16) -> (scancode: u32)
    ensures
        scancode == freerdp_scancode(win),
{
    let win = win as u32;
    if win / 256 == 0xE0 {
        win % 256 + 0x100
    } else if win / 256 == 0xE1 {
        win % 256 + 0x200
    } else {
        win
    }
}

/// Translates an XKB keycode to the scancode form accepted by FreeRDP.
pub fn key_scancode(keycode: u16) -> (scancode: Option<u32>)
    ensures
        scancode == (match xkb_win_code(keycode) {
            Some(win) => Some(freerdp_scancode(win)),
            None => None,
        }),
{
    match lookup_win_code(keycode) {
        Some(win) => Some(extended_scancode(win)),
        None => None,
    }
}

/// The wheel flags for a rotation already converted to whole units: the
/// rotation is clamped to ±255, a negative one is sent as the
/// `PTR_FLAGS_WHEEL_NEGATIVE` flag and its 9-bit two's complement low byte.
pub open spec fn wheel_flags_spec(rotation: i32, horizontal: bool) -> u16 {
    let r: int = if rotation < -255 {
        -255
    } else if rotation > 255 {
        255
    } else {
        rotation as int
    };
    let axis: int = if horizontal {
        PTR_FLAGS_HWHEEL as int
    } else {
        PTR_FLAGS_WHEEL as int
    };
    if r < 0 {
        (axis + PTR_FLAGS_WHEEL_NEGATIVE + (0x100 + r)) as u16
    } else {
        (axis + r) as u16
    }
}

/// FreeRDP wheel flags for one scroll axis.
pub fn wheel_flags(rotation: i32, horizontal: bool) -> (flags: u16)
    ensures
        flags == wheel_flags_spec(rotation, horizontal),
{
    let r: i32 = if rotation < -255 {
        -255
    } else if rotation > 255 {
        255
    } else {
        rotation
    };
    let axis: u16 = if horizontal {
        PTR_FLAGS_HWHEEL
    } else {
        PTR_FLAGS_WHEEL
    };
    if r < 0 {
        axis + PTR_FLAGS_WHEEL_NEGATIVE + ((0x100 + r) as u16)
    } else {
        axis + (r as u16)
    }
}

} // verus!
