//! The keys that change the simulator itself rather than driving the screen.
//!
//! Separate from [`button_for`](crate::button_for) because they answer to a
//! different owner: a device has no key that swaps its own panel for a
//! different one. They are checked before the button map, so nothing here can
//! also arrive as a press.

use vstd::prelude::*;

use crate::keys::{meaning, Key};

verus! {

/// What a control key does to the window.
#[derive(Copy, Clone, Debug, PartialEq, Eq, Structural)]
pub enum Control {
    /// Show the next board in the cycle, wrapping.
    NextBoard,
    /// Show the previous one.
    PreviousBoard,
    /// One more window pixel per panel pixel.
    ZoomIn,
    /// One fewer, down to life size.
    ZoomOut,
    /// Show or hide the device body around the panel.
    ToggleBody,
    /// Write the panel to a file.
    Screenshot,
}

/// What a key means as a control, as a specification.
pub open spec fn control_meaning(key: Key, shift: bool) -> Option<Control> {
    match key {
        Key::B => if shift {
            Some(Control::PreviousBoard)
        } else {
            Some(Control::NextBoard)
        },
        Key::Plus | Key::Equals | Key::KpPlus => Some(Control::ZoomIn),
        Key::Minus | Key::KpMinus => Some(Control::ZoomOut),
        Key::E => Some(Control::ToggleBody),
        Key::S => Some(Control::Screenshot),
        _ => None,
    }
}

impl Control {
    /// Every control, so a check over them cannot check a subset.
    pub fn all() -> (a: [Control; 6])
        ensures
            a@ == seq![
                Control::NextBoard,
                Control::PreviousBoard,
                Control::ZoomIn,
                Control::ZoomOut,
                Control::ToggleBody,
                Control::Screenshot,
            ],
    {
        let a = [
            Control::NextBoard,
            Control::PreviousBoard,
            Control::ZoomIn,
            Control::ZoomOut,
            Control::ToggleBody,
            Control::Screenshot,
        ];
        assert(a@ =~= seq![
            Control::NextBoard,
            Control::PreviousBoard,
            Control::ZoomIn,
            Control::ZoomOut,
            Control::ToggleBody,
            Control::Screenshot,
        ]);
        a
    }
}

/// What a key means, or `None` when it is not a control at all.
///
/// `shift` distinguishes the only pair that needs it. Zoom accepts three keys
/// in because `+` is Shift and `=` on most layouts and its own key on a
/// numeric pad.
pub fn control_for(key: Key, shift: bool) -> (c: Option<Control>)
    ensures
        c == control_meaning(key, shift),
{
    match key {
        Key::B => if shift {
            Some(Control::PreviousBoard)
        } else {
            Some(Control::NextBoard)
        },
        Key::Plus | Key::Equals | Key::KpPlus => Some(Control::ZoomIn),
        Key::Minus | Key::KpMinus => Some(Control::ZoomOut),
        Key::E => Some(Control::ToggleBody),
        Key::S => Some(Control::Screenshot),
        _ => None,
    }
}

/// No key is both a control and a button, so checking controls first costs
/// the keypad nothing.
pub proof fn no_key_is_both_a_control_and_a_button(key: Key, shift: bool)
    ensures
        control_meaning(key, shift) is Some ==> meaning(key) is None,
{
}

} // verus!
