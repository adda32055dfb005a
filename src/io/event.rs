//! Events of the front end that toggles editing with F1.
use vstd::prelude::*;

verus! {

/// A key code as the windowing layer reports it.
pub type KeyCode = i32;

/// The key that toggles edit mode.
pub const KEY_F1: KeyCode = 0x4000_003A;

/// One input event.
#[derive(Debug, Clone, Copy)]
pub enum Event {
    Quit,
    Keyboard { down: bool, timestamp: u32, sym: KeyCode, mod_: u32 },
    /// Text typed, NUL-terminated unless it fills the buffer.
    TextInput { text: [i8; 32] },
}

} // verus!
