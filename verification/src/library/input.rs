//! Recognizing control key combinations in key events.
use vstd::prelude::*;
use crate::device::key::{KeyEvent, Scancode, CTRL_LEFT, CTRL_RIGHT};

verus! {

/// Time to wait between the two drain passes when the keyboard changes hands:
/// the release events of a key combination such as Ctrl+C arrive a few
/// milliseconds after its press event.
pub const DRAIN_SETTLE_MS: usize = 50;

/// Whether the event is a press of `key` with either Ctrl key held.
pub open spec fn is_ctrl_spec(event: KeyEvent, key: Scancode) -> bool {
    event.pressed && event.scancode == Some(key) && (event.modifiers & (CTRL_LEFT | CTRL_RIGHT))
        != 0
}

/// Check whether the event is a key press of `key` together with either Ctrl key.
///
/// This looks at the physical key and the modifier flags, not the ASCII code:
/// a Ctrl+L event still reports the character 'l', so callers test control
/// combinations before printable characters.
pub fn is_ctrl(event: &KeyEvent, key: Scancode) -> (r: bool)
    ensures
        r == is_ctrl_spec(*event, key),
{
    event.pressed() && event.scancode() == Some(key) && (event.modifiers() & (CTRL_LEFT
        | CTRL_RIGHT)) != 0
}

/// Check whether the event is a Ctrl+C key press (left or right Ctrl).
pub fn is_ctrl_c(event: &KeyEvent) -> (r: bool)
    ensures
        r == is_ctrl_spec(*event, Scancode::C),
{
    is_ctrl(event, Scancode::C)
}

} // verus!
