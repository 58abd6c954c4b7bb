//! Key events as the keyboard driver reports them: the physical key, the decoded
//! ASCII character, whether the key was pressed or released, and the modifier flags.
use vstd::prelude::*;

verus! {

/// Physical keys.
#[derive(PartialEq, Eq, Structural, Clone, Copy, Debug)]
pub enum Scancode {
    Escape, Key1, Key2, Key3, Key4, Key5, Key6, Key7, Key8, Key9, Key0, Minus, Equals,
    Backspace, Tab, Q, W, E, R, T, Y, U, I, O, P, LeftBracket, RightBracket, Enter,
    A, S, D, F, G, H, J, K, L, Semicolon, Apostrophe, Grave, Backslash,
    Z, X, C, V, B, N, M, Comma, Period, Slash, Space,
    F1, F2, F3, F4, F5, F6, F7, F8, F9, F10, F11, F12,
    Up, Down, Left, Right, Home, End, PageUp, PageDown, Insert, Del, Meta,
}

/// Left Ctrl key held.
pub const CTRL_LEFT: u8 = 0x01;
/// Right Ctrl key held.
pub const CTRL_RIGHT: u8 = 0x02;
/// Left Alt key held.
pub const ALT_LEFT: u8 = 0x04;
/// Right Alt key held.
pub const ALT_RIGHT: u8 = 0x08;
/// Left Shift key held.
pub const SHIFT_LEFT: u8 = 0x10;
/// Right Shift key held.
pub const SHIFT_RIGHT: u8 = 0x20;

/// A single key press or release.
#[derive(Clone, Copy, Debug)]
pub struct KeyEvent {
    /// The physical key, if the driver knows it.
    pub scancode: Option<Scancode>,
    /// The ASCII character the driver decoded for the key, if any.
    pub ascii: Option<char>,
    /// Whether this is a press (true) or a release (false).
    pub pressed: bool,
    /// The modifier flags held during the event (`CTRL_LEFT`, ...).
    pub modifiers: u8,
}

impl KeyEvent {
    /// Whether the event is a key press.
    pub fn pressed(&self) -> (r: bool)
        ensures
            r == self.pressed,
    {
        self.pressed
    }

    /// The physical key of the event.
    pub fn scancode(&self) -> (r: Option<Scancode>)
        ensures
            r == self.scancode,
    {
        self.scancode
    }

    /// The decoded ASCII character of the event.
    pub fn ascii(&self) -> (r: Option<char>)
        ensures
            r == self.ascii,
    {
        self.ascii
    }

    /// The modifier flags of the event.
    pub fn modifiers(&self) -> (r: u8)
        ensures
            r == self.modifiers,
    {
        self.modifiers
    }
}

} // verus!
