use vstd::prelude::*;

use crate::geometry::{Rectangle, XY};

verus! {

/// Whether a button went down or up.
#[derive(Clone, Copy, Debug, PartialEq, Eq, Structural)]
pub enum ButtonState {
    Pressed,
    Released,
}

/// A mouse button.
#[derive(Clone, Copy, Debug, PartialEq, Eq, Structural)]
pub enum MouseButton {
    Left,
    Middle,
    Right,
    WheelUp,
    WheelDown,
    Unknown,
}

/// A key of the keyboard.
#[derive(Debug)]
pub enum KeyboardKey {
    String(String),
    Backspace,
    Escape,
    Unknown,
}

/// Whether two keys are the same key; keys that type text compare by that text.
pub open spec fn same_key(a: KeyboardKey, b: KeyboardKey) -> bool {
    match (a, b) {
        (KeyboardKey::String(x), KeyboardKey::String(y)) => x@ == y@,
        (KeyboardKey::Backspace, KeyboardKey::Backspace) => true,
        (KeyboardKey::Escape, KeyboardKey::Escape) => true,
        (KeyboardKey::Unknown, KeyboardKey::Unknown) => true,
        _ => false,
    }
}

impl PartialEq for KeyboardKey {
    fn eq(&self, other: &Self) -> (r: bool) {
        match (self, other) {
            (KeyboardKey::String(x), KeyboardKey::String(y)) => x.eq(y),
            (KeyboardKey::Backspace, KeyboardKey::Backspace) => true,
            (KeyboardKey::Escape, KeyboardKey::Escape) => true,
            (KeyboardKey::Unknown, KeyboardKey::Unknown) => true,
            _ => false,
        }
    }
}

impl vstd::std_specs::cmp::PartialEqSpecImpl for KeyboardKey {
    open spec fn obeys_eq_spec() -> bool {
        true
    }

    open spec fn eq_spec(&self, other: &KeyboardKey) -> bool {
        same_key(*self, *other)
    }
}

/// Whether `key` is the key that types `text`.
pub open spec fn types_text(key: KeyboardKey, text: Seq<char>) -> bool {
    key matches KeyboardKey::String(typed) && typed@ == text
}

impl<'a> From<&'a str> for KeyboardKey {
    /// The key that types `value`.
    fn from(value: &'a str) -> (r: KeyboardKey)
        ensures
            r matches KeyboardKey::String(text) && text@ == value@,
    {
        KeyboardKey::String(String::from_str(value))
    }
}

impl<'a> vstd::std_specs::convert::FromSpecImpl<&'a str> for KeyboardKey {
    /// A key holds a `String`, which spec code can only choose by its view, so `from` states
    /// its result in its own `ensures`.
    open spec fn obeys_from_spec() -> bool {
        false
    }

    /// The key that types `v`.
    open spec fn from_spec(v: &'a str) -> KeyboardKey {
        choose|k: KeyboardKey| #[trigger] types_text(k, v@)
    }
}

/// A button of the mouse or of the keyboard.
#[derive(Debug)]
pub enum Button {
    Mouse(MouseButton),
    Keyboard(KeyboardKey),
}

/// Whether two buttons are the same button.
pub open spec fn same_button(a: Button, b: Button) -> bool {
    match (a, b) {
        (Button::Mouse(x), Button::Mouse(y)) => x == y,
        (Button::Keyboard(x), Button::Keyboard(y)) => same_key(x, y),
        _ => false,
    }
}

impl PartialEq for Button {
    fn eq(&self, other: &Self) -> (r: bool) {
        match (self, other) {
            (Button::Mouse(x), Button::Mouse(y)) => x == y,
            (Button::Keyboard(x), Button::Keyboard(y)) => x == y,
            _ => false,
        }
    }
}

impl vstd::std_specs::cmp::PartialEqSpecImpl for Button {
    open spec fn obeys_eq_spec() -> bool {
        true
    }

    open spec fn eq_spec(&self, other: &Button) -> bool {
        same_button(*self, *other)
    }
}

/// Something that happened to the window or its input devices.
#[derive(Debug)]
pub enum Event {
    Init,
    Tick,
    Button { button: Button, state: ButtonState },
    MouseMoved(XY<u32>),
    WindowResize(Rectangle<u32>),
}

/// The mouse position after `event`: the one it reports if it moved the mouse.
pub open spec fn mouse_after(event: Event, mouse_xy: Option<XY<u32>>) -> Option<XY<u32>> {
    match event {
        Event::MouseMoved(xy) => Some(xy),
        _ => mouse_xy,
    }
}

} // verus!
