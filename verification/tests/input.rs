use longlens::input::{
    extended_scancode, key_scancode, mouse_button, wheel_flags, BUTTON_MIDDLE, BUTTON_PRIMARY,
    BUTTON_SECONDARY, PTR_FLAGS_BUTTON1, PTR_FLAGS_BUTTON2, PTR_FLAGS_BUTTON3, PTR_FLAGS_HWHEEL,
    PTR_FLAGS_WHEEL, PTR_FLAGS_WHEEL_NEGATIVE,
};

#[test]
fn mouse_buttons() {
    assert_eq!(mouse_button(BUTTON_PRIMARY), Some(PTR_FLAGS_BUTTON1));
    assert_eq!(mouse_button(BUTTON_SECONDARY), Some(PTR_FLAGS_BUTTON2));
    assert_eq!(mouse_button(BUTTON_MIDDLE), Some(PTR_FLAGS_BUTTON3));
    assert_eq!(mouse_button(8), None);
}

#[test]
fn keycodes_include_extended_flag() {
    assert_eq!(key_scancode(38), Some(0x001e)); // A
    assert_eq!(key_scancode(105), Some(0x011d)); // Right Control
}

#[test]
fn unknown_keycodes_have_no_scancode() {
    assert_eq!(key_scancode(1), None);
    assert_eq!(key_scancode(4096), None);
}

#[test]
fn extended_prefixes_become_flags() {
    assert_eq!(extended_scancode(0x001e), 0x001e);
    assert_eq!(extended_scancode(0xe01d), 0x011d);
    assert_eq!(extended_scancode(0xe11d), 0x021d);
}

#[test]
fn wheel_sign_and_axes() {
    // One notch down is a rotation of -120 on the vertical axis, one notch
    // right +120 on the horizontal one.
    assert_eq!(
        wheel_flags(-120, false),
        PTR_FLAGS_WHEEL | PTR_FLAGS_WHEEL_NEGATIVE | (0x100 - 120)
    );
    assert_eq!(wheel_flags(120, true), PTR_FLAGS_HWHEEL | 120);
}

#[test]
fn wheel_rotation_is_clamped() {
    assert_eq!(wheel_flags(1000, false), PTR_FLAGS_WHEEL | 255);
    assert_eq!(wheel_flags(-1000, true), PTR_FLAGS_HWHEEL | PTR_FLAGS_WHEEL_NEGATIVE | 1);
    assert_eq!(wheel_flags(0, false), PTR_FLAGS_WHEEL);
}
