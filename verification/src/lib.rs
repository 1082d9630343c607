//! Press-and-hold accent input: verified core.
//!
//! The library holds the logic of an accent-input daemon for Linux
//! desktops: the keycode tables and per-locale accent maps, the
//! per-device key-stream state machine, the plan for synthesizing a
//! chosen accent through the Ctrl+Shift+U hex chord, the line-delimited
//! JSON message codec, and the daemon-side routing rules. Device I/O,
//! sockets and timers live outside the library and drive it with plain
//! values.

pub mod charmap;
pub mod compose;
pub mod config;
pub mod events;
pub mod ipc;
pub mod state_machine;
pub mod supervisor;
pub mod text;
pub mod wire;
