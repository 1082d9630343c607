//! The plain input-event value that the state machine consumes and
//! produces: an evdev event reduced to the three fields the logic
//! reads (type, code, value).

use vstd::prelude::*;

verus! {

/// evdev event type for synchronization events.
pub const EV_SYN: u16 = 0;

/// evdev event type for key events.
pub const EV_KEY: u16 = 1;

/// Key event value for a release.
pub const VAL_RELEASE: i32 = 0;

/// Key event value for a press.
pub const VAL_PRESS: i32 = 1;

/// Key event value for a kernel autorepeat.
pub const VAL_REPEAT: i32 = 2;

pub const KEY_ESC: u16 = 1;
pub const KEY_BACKSPACE: u16 = 14;
pub const KEY_ENTER: u16 = 28;
pub const KEY_LEFTCTRL: u16 = 29;
pub const KEY_LEFTSHIFT: u16 = 42;
pub const KEY_RIGHTSHIFT: u16 = 54;
pub const KEY_LEFTALT: u16 = 56;
pub const KEY_RIGHTCTRL: u16 = 97;
pub const KEY_RIGHTALT: u16 = 100;
pub const KEY_LEFTMETA: u16 = 125;
pub const KEY_RIGHTMETA: u16 = 126;

/// One input event: the three fields of a `struct input_event` that the
/// logic reads. `value` is 0 for release, 1 for press, 2 for repeat.
#[derive(Debug, Clone, Copy, PartialEq, Eq, Structural)]
pub struct InputEvent {
    pub event_type: u16,
    pub code: u16,
    pub value: i32,
}

impl InputEvent {
    /// Build an event from its three fields.
    pub fn new(event_type: u16, code: u16, value: i32) -> (r: InputEvent)
        ensures
            r == (InputEvent { event_type, code, value }),
    {
        InputEvent { event_type, code, value }
    }
}

} // verus!
