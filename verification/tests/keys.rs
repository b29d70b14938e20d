use xpui_simulator::{button_for, control_for, Button, Control, Key};

/// Every row of the key table the running guide documents, as `(the guide's
/// label, what the code must do with it)`.
const DOCUMENTED: &[(&str, Key, Option<Button>)] = &[
    ("Up / Down", Key::Up, Some(Button::Up)),
    ("Up / Down", Key::Down, Some(Button::Down)),
    ("Left / Right", Key::Left, Some(Button::Left)),
    ("Left / Right", Key::Right, Some(Button::Right)),
    ("Enter", Key::Return, Some(Button::Confirm)),
    ("keypad Enter", Key::KpEnter, Some(Button::Confirm)),
    ("Space", Key::Space, Some(Button::Confirm)),
    ("Backspace", Key::Backspace, Some(Button::Back)),
    ("Page Up", Key::PageUp, Some(Button::PageBack)),
    ("Page Down", Key::PageDown, Some(Button::PageForward)),
];

#[test]
fn the_code_does_what_the_page_says() {
    for (label, key, expected) in DOCUMENTED {
        assert_eq!(button_for(*key), *expected, "the guide documents {label} — the code disagrees");
    }
}

#[test]
fn escape_is_not_back() {
    assert_eq!(button_for(Key::Escape), None);
}

#[test]
fn the_simulator_keys_are_its_own() {
    assert_eq!(control_for(Key::B, false), Some(Control::NextBoard));
    assert_eq!(control_for(Key::B, true), Some(Control::PreviousBoard));
    assert_eq!(control_for(Key::E, false), Some(Control::ToggleBody));
    assert_eq!(control_for(Key::S, false), Some(Control::Screenshot));
    assert_eq!(control_for(Key::Plus, false), Some(Control::ZoomIn));
    assert_eq!(control_for(Key::Equals, false), Some(Control::ZoomIn));
    assert_eq!(control_for(Key::KpPlus, false), Some(Control::ZoomIn));
    assert_eq!(control_for(Key::Minus, false), Some(Control::ZoomOut));
    assert_eq!(control_for(Key::KpMinus, false), Some(Control::ZoomOut));
    assert_eq!(control_for(Key::Up, false), None);
    for (_, key, _) in DOCUMENTED {
        assert_eq!(control_for(*key, false), None);
        assert_eq!(control_for(*key, true), None);
    }
    assert_eq!(button_for(Key::B), None);
    assert_eq!(button_for(Key::Other), None);
}
