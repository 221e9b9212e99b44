//! The platform-event model the interactive loop consumes, and the exact
//! decoding of a key press into a character. The windowing layer turns its
//! own events into these values; the decoding logic lives here, verified.

use vstd::prelude::*;

verus! {

/// A key's identity; the interactive loop reads characters instead.
#[derive(Debug)]
pub enum Keycode {
    Temp,
}

/// The modifier state of a key press.
#[derive(Debug)]
pub struct Keymod {
    pub shift: bool,
    pub ctrl: bool,
    pub caps: bool,
}

/// One event of the interactive loop.
#[derive(Debug)]
pub enum Event {
    KeyDown { repeat: bool, char: Option<char>, keycode: Keycode, keymod: Keymod },
    Quit,
}

/// The character a key press stands for: shift turns minus into an
/// underscore and comma into a semicolon, the return key is a newline,
/// and any key whose code is a printable ASCII character stands for
/// itself.
pub open spec fn spec_char_of_keycode(code: u32, shift: bool) -> Option<char> {
    if shift && code == 45 {
        Some('_')
    } else if shift && code == 44 {
        Some(';')
    } else if code == 13 {
        Some('\n')
    } else if 32 <= code && code <= 126 {
        Some((code as u8) as char)
    } else {
        None
    }
}

/// Decodes a key press into the character it stands for, if any.
pub fn char_of_keycode(code: u32, shift: bool) -> (r: Option<char>)
    ensures
        r == spec_char_of_keycode(code, shift),
{
    if shift && code == 45 {
        Some('_')
    } else if shift && code == 44 {
        Some(';')
    } else if code == 13 {
        Some('\n')
    } else if 32 <= code && code <= 126 {
        Some((code as u8) as char)
    } else {
        None
    }
}

/// Builds the key-down event of a key press: its character per
/// `spec_char_of_keycode`, with the modifier state carried along.
pub fn key_down_event(code: u32, repeat: bool, shift: bool, ctrl: bool, caps: bool) -> (e: Event)
    ensures
        e == (Event::KeyDown {
            repeat,
            char: spec_char_of_keycode(code, shift),
            keycode: Keycode::Temp,
            keymod: Keymod { shift, ctrl, caps },
        }),
{
    Event::KeyDown {
        repeat,
        char: char_of_keycode(code, shift),
        keycode: Keycode::Temp,
        keymod: Keymod { shift, ctrl, caps },
    }
}

} // verus!
