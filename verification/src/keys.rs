//! The keyboard, as the simulator reads it, and as logical buttons.

use vstd::prelude::*;

use crate::device::Button;

verus! {

/// A key on the host's keyboard: the ones this crate gives a meaning to, and
/// every other key as one.
///
/// The window reports SDL's key codes; the loop names each one it cares about
/// here before anything decides what it means.
#[derive(Copy, Clone, Debug, PartialEq, Eq, Structural)]
pub enum Key {
    Up,
    Down,
    Left,
    Right,
    Return,
    KpEnter,
    Space,
    Backspace,
    PageUp,
    PageDown,
    Escape,
    B,
    E,
    H,
    Q,
    S,
    Plus,
    Equals,
    KpPlus,
    Minus,
    KpMinus,
    /// Any key none of the above names.
    Other,
}

/// What a key means, as a specification.
pub open spec fn meaning(key: Key) -> Option<Button> {
    match key {
        Key::Up => Some(Button::Up),
        Key::Down => Some(Button::Down),
        Key::Left => Some(Button::Left),
        Key::Right => Some(Button::Right),
        Key::Return | Key::KpEnter | Key::Space => Some(Button::Confirm),
        Key::Backspace => Some(Button::Back),
        Key::PageUp => Some(Button::PageBack),
        Key::PageDown => Some(Button::PageForward),
        _ => None,
    }
}

/// What a key means.
///
/// Named by meaning, never by position: a screen asks for `Confirm` and the
/// host decides what that is. Escape is absent on purpose: the window turns it
/// into a quit before any key press arrives to be mapped.
pub fn button_for(key: Key) -> (b: Option<Button>)
    ensures
        b == meaning(key),
{
    match key {
        Key::Up => Some(Button::Up),
        Key::Down => Some(Button::Down),
        Key::Left => Some(Button::Left),
        Key::Right => Some(Button::Right),
        Key::Return | Key::KpEnter | Key::Space => Some(Button::Confirm),
        Key::Backspace => Some(Button::Back),
        Key::PageUp => Some(Button::PageBack),
        Key::PageDown => Some(Button::PageForward),
        _ => None,
    }
}

} // verus!
