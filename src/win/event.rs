//! Events of the front end that toggles editing with caps lock.
use vstd::prelude::*;

verus! {

/// The keys this front end tells apart.
#[derive(Debug, Clone, Copy, PartialEq, Eq, Structural)]
pub enum KeyCode {
    CapsLock,
    /// Any other key.
    Other,
}

/// One input event.
#[derive(Debug, Clone, Copy)]
pub enum Event {
    Quit,
    Keyboard { down: bool, timestamp: u32, sym: KeyCode, mod_: u32 },
    TextInput { text: [i8; 32] },
}

} // verus!
