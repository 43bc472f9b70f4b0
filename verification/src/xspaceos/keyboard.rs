//! Decoder for PS/2 keyboard scancodes (scan code set 1).
//!
//! A key press sends a "make code"; its release sends the matching "break
//! code" (make code | 0x80). Arrow keys, Home, End, Page Up, Page Down,
//! Delete and Right Ctrl arrive as a two-byte sequence starting with the 0xE0
//! prefix. The decoder consumes one scancode at a time, tracks Shift, Ctrl,
//! Caps Lock and a pending prefix, and reports a key when a byte completes a
//! meaningful key press.
use vstd::prelude::*;

verus! {

/// A decoded key press.
#[derive(Debug, Clone, Copy, PartialEq, Eq, Structural)]
pub enum Key {
    /// A printable ASCII character.
    Char(u8),
    Enter,
    Backspace,
    Escape,
    Up,
    Down,
    Left,
    Right,
    Delete,
    CtrlS,
    CtrlX,
    CtrlR,
    Home,
    End,
    PageUp,
    PageDown,
}

/// Make codes 0x00..0x39 mapped to ASCII; 0 for keys without a printable
/// character.
pub open spec fn scancode_set1() -> Seq<u8> {
    seq![
        0, 0, // none, Esc
        0x31, 0x32, 0x33, 0x34, 0x35, 0x36, 0x37, 0x38, 0x39, 0x30, // 1..9 0
        0x2d, 0x3d, // - =
        0, 0, // Backspace, Tab
        0x71, 0x77, 0x65, 0x72, 0x74, 0x79, 0x75, 0x69, 0x6f, 0x70, // q..p
        0x5b, 0x5d, // [ ]
        0, 0, // Enter, Ctrl
        0x61, 0x73, 0x64, 0x66, 0x67, 0x68, 0x6a, 0x6b, 0x6c, // a..l
        0x3b, 0x27, 0x60, // ; ' `
        0, // Left Shift
        0x5c, // backslash
        0x7a, 0x78, 0x63, 0x76, 0x62, 0x6e, 0x6d, // z..m
        0x2c, 0x2e, 0x2f, // , . /
        0, 0, 0, // Right Shift, KP*, Alt
        0x20, // Space
    ]
}

/// Make codes 0x00..0x39 mapped to the ASCII byte typed with Shift on a US
/// layout; 0 for keys without a printable character.
pub open spec fn scancode_set1_shifted() -> Seq<u8> {
    seq![
        0, 0, // none, Esc
        0x21, 0x40, 0x23, 0x24, 0x25, 0x5e, 0x26, 0x2a, 0x28, 0x29, // ! @ # $ % ^ & * ( )
        0x5f, 0x2b, // _ +
        0, 0, // Backspace, Tab
        0x51, 0x57, 0x45, 0x52, 0x54, 0x59, 0x55, 0x49, 0x4f, 0x50, // Q..P
        0x7b, 0x7d, // { }
        0, 0, // Enter, Ctrl
        0x41, 0x53, 0x44, 0x46, 0x47, 0x48, 0x4a, 0x4b, 0x4c, // A..L
        0x3a, 0x22, 0x7e, // : " ~
        0, // Left Shift
        0x7c, // |
        0x5a, 0x58, 0x43, 0x56, 0x42, 0x4e, 0x4d, // Z..M
        0x3c, 0x3e, 0x3f, // < > ?
        0, 0, 0, // Right Shift, KP*, Alt
        0x20, // Space
    ]
}

/// A lowercase ASCII letter.
pub open spec fn is_lower(b: u8) -> bool {
    0x61 <= b <= 0x7a
}

/// The ASCII byte of a make code under the given Shift and Caps Lock state;
/// 0 when the key has no printable character. A letter is upper case when
/// exactly one of Shift and Caps Lock is on; any other key takes its shifted
/// symbol when Shift is held, whatever Caps Lock says.
pub open spec fn spec_decode(scancode: u8, shift_held: bool, caps_lock: bool) -> u8 {
    if scancode as int >= scancode_set1().len() {
        0
    } else {
        let ascii = scancode_set1()[scancode as int];
        if ascii == 0 {
            0
        } else if is_lower(ascii) {
            if shift_held != caps_lock {
                (ascii - 32) as u8
            } else {
                ascii
            }
        } else if shift_held {
            scancode_set1_shifted()[scancode as int]
        } else {
            ascii
        }
    }
}

/// Translate a make code to an ASCII byte under the given Shift and Caps
/// Lock state. Returns 0 if the key has no printable character.
pub fn decode(scancode: u8, shift_held: bool, caps_lock: bool) -> (ascii: u8)
    ensures
        ascii == spec_decode(scancode, shift_held, caps_lock),
{
    let table: [u8; 58] = [
        0, 0,
        0x31, 0x32, 0x33, 0x34, 0x35, 0x36, 0x37, 0x38, 0x39, 0x30,
        0x2d, 0x3d,
        0, 0,
        0x71, 0x77, 0x65, 0x72, 0x74, 0x79, 0x75, 0x69, 0x6f, 0x70,
        0x5b, 0x5d,
        0, 0,
        0x61, 0x73, 0x64, 0x66, 0x67, 0x68, 0x6a, 0x6b, 0x6c,
        0x3b, 0x27, 0x60,
        0,
        0x5c,
        0x7a, 0x78, 0x63, 0x76, 0x62, 0x6e, 0x6d,
        0x2c, 0x2e, 0x2f,
        0, 0, 0,
        0x20,
    ];
    let shifted: [u8; 58] = [
        0, 0,
        0x21, 0x40, 0x23, 0x24, 0x25, 0x5e, 0x26, 0x2a, 0x28, 0x29,
        0x5f, 0x2b,
        0, 0,
        0x51, 0x57, 0x45, 0x52, 0x54, 0x59, 0x55, 0x49, 0x4f, 0x50,
        0x7b, 0x7d,
        0, 0,
        0x41, 0x53, 0x44, 0x46, 0x47, 0x48, 0x4a, 0x4b, 0x4c,
        0x3a, 0x22, 0x7e,
        0,
        0x7c,
        0x5a, 0x58, 0x43, 0x56, 0x42, 0x4e, 0x4d,
        0x3c, 0x3e, 0x3f,
        0, 0, 0,
        0x20,
    ];
    assert(table@ =~= scancode_set1());
    assert(shifted@ =~= scancode_set1_shifted());
    let index = scancode as usize;
    if index >= 58 {
        return 0;
    }
    let ascii = table[index];
    if ascii == 0 {
        return 0;
    }
    if 0x61 <= ascii && ascii <= 0x7a {
        if shift_held != caps_lock {
            ascii - 32
        } else {
            ascii
        }
    } else if shift_held {
        shifted[index]
    } else {
        ascii
    }
}

/// Modifier and prefix state of the decoder.
#[derive(Debug, Clone, Copy, PartialEq, Eq, Structural)]
pub struct KeyboardState {
    /// A Shift key is held.
    pub shift_held: bool,
    /// A Ctrl key is held.
    pub ctrl_held: bool,
    /// Caps Lock is on.
    pub caps_lock: bool,
    /// The previous byte was the 0xE0 prefix.
    pub extended: bool,
}

/// One decoding step: the state after scancode `code` and the key it
/// completes, if any.
pub open spec fn spec_step(s: KeyboardState, code: u8) -> (KeyboardState, Option<Key>) {
    if s.extended {
        let s1 = KeyboardState { extended: false, ..s };
        if code == 0x48 {
            (s1, Some(Key::Up))
        } else if code == 0x50 {
            (s1, Some(Key::Down))
        } else if code == 0x4b {
            (s1, Some(Key::Left))
        } else if code == 0x4d {
            (s1, Some(Key::Right))
        } else if code == 0x53 {
            (s1, Some(Key::Delete))
        } else if code == 0x47 {
            (s1, Some(Key::Home))
        } else if code == 0x4f {
            (s1, Some(Key::End))
        } else if code == 0x49 {
            (s1, Some(Key::PageUp))
        } else if code == 0x51 {
            (s1, Some(Key::PageDown))
        } else if code == 0x1d {
            (KeyboardState { ctrl_held: true, ..s1 }, None)
        } else if code == 0x9d {
            (KeyboardState { ctrl_held: false, ..s1 }, None)
        } else {
            (s1, None)
        }
    } else if code == 0xe0 {
        (KeyboardState { extended: true, ..s }, None)
    } else if code == 0x2a || code == 0x36 {
        (KeyboardState { shift_held: true, ..s }, None)
    } else if code == 0xaa || code == 0xb6 {
        (KeyboardState { shift_held: false, ..s }, None)
    } else if code == 0x1d {
        (KeyboardState { ctrl_held: true, ..s }, None)
    } else if code == 0x9d {
        (KeyboardState { ctrl_held: false, ..s }, None)
    } else if code == 0x3a {
        (KeyboardState { caps_lock: !s.caps_lock, ..s }, None)
    } else if code >= 0x80 {
        (s, None)
    } else if code == 0x1c {
        (s, Some(Key::Enter))
    } else if code == 0x0e {
        (s, Some(Key::Backspace))
    } else if code == 0x01 {
        (s, Some(Key::Escape))
    } else {
        let ascii = spec_decode(code, s.shift_held, s.caps_lock);
        if ascii == 0 {
            (s, None)
        } else if s.ctrl_held {
            let lower = ascii | 0x20;
            if lower == 0x73 {
                (s, Some(Key::CtrlS))
            } else if lower == 0x78 {
                (s, Some(Key::CtrlX))
            } else if lower == 0x72 {
                (s, Some(Key::CtrlR))
            } else {
                (s, None)
            }
        } else {
            (s, Some(Key::Char(ascii)))
        }
    }
}

impl KeyboardState {
    /// No modifier held, Caps Lock off and no prefix pending.
    pub fn new() -> (s: KeyboardState)
        ensures
            s == (KeyboardState { shift_held: false, ctrl_held: false, caps_lock: false, extended: false }),
    {
        KeyboardState { shift_held: false, ctrl_held: false, caps_lock: false, extended: false }
    }

    /// Whether Caps Lock is on.
    pub fn caps_lock_on(&self) -> (on: bool)
        ensures
            on == self.caps_lock,
    {
        self.caps_lock
    }

    /// Feed one scancode. Key releases are consumed silently (except Shift
    /// and Ctrl, whose state is tracked), Caps Lock toggles on each press,
    /// and only actual key presses are reported.
    pub fn step(&mut self, code: u8) -> (key: Option<Key>)
        ensures
            (*final(self), key) == spec_step(*old(self), code),
    {
        if self.extended {
            self.extended = false;
            return match code {
                0x48 => Some(Key::Up),
                0x50 => Some(Key::Down),
                0x4b => Some(Key::Left),
                0x4d => Some(Key::Right),
                0x53 => Some(Key::Delete),
                0x47 => Some(Key::Home),
                0x4f => Some(Key::End),
                0x49 => Some(Key::PageUp),
                0x51 => Some(Key::PageDown),
                0x1d => {
                    self.ctrl_held = true;
                    None
                },
                0x9d => {
                    self.ctrl_held = false;
                    None
                },
                _ => None,
            };
        }
        if code == 0xe0 {
            self.extended = true;
            return None;
        }
        match code {
            0x2a | 0x36 => {
                self.shift_held = true;
                return None;
            },
            0xaa | 0xb6 => {
                self.shift_held = false;
                return None;
            },
            0x1d => {
                self.ctrl_held = true;
                return None;
            },
            0x9d => {
                self.ctrl_held = false;
                return None;
            },
            0x3a => {
                self.caps_lock = !self.caps_lock;
                return None;
            },
            _ => {},
        }
        if code & 0x80 != 0 {
            assert(code & 0x80 != 0 ==> code >= 0x80) by (bit_vector);
            return None;
        }
        assert(code & 0x80 == 0 ==> code < 0x80) by (bit_vector);
        match code {
            0x1c => Some(Key::Enter),
            0x0e => Some(Key::Backspace),
            0x01 => Some(Key::Escape),
            _ => {
                let ascii = decode(code, self.shift_held, self.caps_lock);
                if ascii != 0 {
                    if self.ctrl_held {
                        match ascii | 0x20 {
                            0x73 => Some(Key::CtrlS),
                            0x78 => Some(Key::CtrlX),
                            0x72 => Some(Key::CtrlR),
                            _ => None,
                        }
                    } else {
                        Some(Key::Char(ascii))
                    }
                } else {
                    None
                }
            },
        }
    }
}


/// A release (break) code never reports a key, whatever the decoder's
/// state.
pub proof fn law_release_reports_nothing(s: KeyboardState, code: u8)
    requires
        code >= 0x80,
    ensures
        spec_step(s, code).1 is None,
{
}

/// Caps Lock affects letters only: every other key types the same byte with
/// Caps Lock on or off.
pub proof fn law_caps_lock_letters_only(scancode: u8, shift_held: bool)
    requires
        (scancode as int) < scancode_set1().len(),
        !is_lower(scancode_set1()[scancode as int]),
    ensures
        spec_decode(scancode, shift_held, true) == spec_decode(scancode, shift_held, false),
{
}

/// Shift and Caps Lock cancel on letters: holding Shift while Caps Lock is
/// on types the lowercase letter, and either one alone types the uppercase
/// letter.
pub proof fn law_shift_caps_letters(scancode: u8)
    requires
        (scancode as int) < scancode_set1().len(),
        is_lower(scancode_set1()[scancode as int]),
    ensures
        spec_decode(scancode, true, true) == scancode_set1()[scancode as int],
        spec_decode(scancode, false, false) == scancode_set1()[scancode as int],
        spec_decode(scancode, true, false) == scancode_set1()[scancode as int] - 32,
        spec_decode(scancode, false, true) == scancode_set1()[scancode as int] - 32,
{
}

/// Pressing Caps Lock twice leaves the decoder as it was, and neither press
/// reports a key.
pub proof fn law_caps_lock_twice(s: KeyboardState)
    requires
        !s.extended,
    ensures
        spec_step(spec_step(s, 0x3a).0, 0x3a).0 == s,
        spec_step(s, 0x3a).1 is None,
        spec_step(spec_step(s, 0x3a).0, 0x3a).1 is None,
{
}

/// While Ctrl is held, no printable character is reported: a key press
/// gives one of the Ctrl shortcuts or nothing.
pub proof fn law_ctrl_hides_chars(s: KeyboardState, code: u8)
    requires
        s.ctrl_held,
    ensures
        !(spec_step(s, code).1 matches Some(Key::Char(_))),
{
}


/// The printable keys of a US keyboard, row by row as typed without Shift:
/// the number row, then the three letter rows.
pub open spec fn us_row(r: int) -> Seq<char> {
    if r == 0 {
        seq!['1', '2', '3', '4', '5', '6', '7', '8', '9', '0', '-', '=']
    } else if r == 1 {
        seq!['q', 'w', 'e', 'r', 't', 'y', 'u', 'i', 'o', 'p', '[', ']']
    } else if r == 2 {
        seq!['a', 's', 'd', 'f', 'g', 'h', 'j', 'k', 'l', ';', '\'', '`']
    } else {
        seq!['\\', 'z', 'x', 'c', 'v', 'b', 'n', 'm', ',', '.', '/']
    }
}

/// The same keys as typed with Shift held.
pub open spec fn us_row_shifted(r: int) -> Seq<char> {
    if r == 0 {
        seq!['!', '@', '#', '$', '%', '^', '&', '*', '(', ')', '_', '+']
    } else if r == 1 {
        seq!['Q', 'W', 'E', 'R', 'T', 'Y', 'U', 'I', 'O', 'P', '{', '}']
    } else if r == 2 {
        seq!['A', 'S', 'D', 'F', 'G', 'H', 'J', 'K', 'L', ':', '"', '~']
    } else {
        seq!['|', 'Z', 'X', 'C', 'V', 'B', 'N', 'M', '<', '>', '?']
    }
}

/// Make code of the first key of each row in scan code set 1.
pub open spec fn us_row_start(r: int) -> int {
    if r == 0 {
        0x02
    } else if r == 1 {
        0x10
    } else if r == 2 {
        0x1e
    } else {
        0x2b
    }
}

/// Key `k` of row `r` types the character of a US keyboard at that place:
/// its plain character without Shift, its shifted character with Shift (Caps
/// Lock off).
pub proof fn law_us_layout(r: int, k: int)
    requires
        0 <= r < 4,
        0 <= k < us_row(r).len(),
    ensures
        us_row(r).len() == us_row_shifted(r).len(),
        spec_decode((us_row_start(r) + k) as u8, false, false) == us_row(r)[k] as u8,
        spec_decode((us_row_start(r) + k) as u8, true, false) == us_row_shifted(r)[k] as u8,
{
    if r == 0 {
        if k == 0 {} else if k == 1 {} else if k == 2 {} else if k == 3 {} else if k == 4 {} else if k == 5 {} else if k == 6 {} else if k == 7 {} else if k == 8 {} else if k == 9 {} else if k == 10 {} else if k == 11 {}
    }
    if r == 1 {
        if k == 0 {} else if k == 1 {} else if k == 2 {} else if k == 3 {} else if k == 4 {} else if k == 5 {} else if k == 6 {} else if k == 7 {} else if k == 8 {} else if k == 9 {} else if k == 10 {} else if k == 11 {}
    }
    if r == 2 {
        if k == 0 {} else if k == 1 {} else if k == 2 {} else if k == 3 {} else if k == 4 {} else if k == 5 {} else if k == 6 {} else if k == 7 {} else if k == 8 {} else if k == 9 {} else if k == 10 {} else if k == 11 {}
    }
    if r == 3 {
        if k == 0 {} else if k == 1 {} else if k == 2 {} else if k == 3 {} else if k == 4 {} else if k == 5 {} else if k == 6 {} else if k == 7 {} else if k == 8 {} else if k == 9 {} else if k == 10 {}
    }
}

/// The space bar types a space whatever the modifiers.
pub proof fn law_space_bar(shift_held: bool, caps_lock: bool)
    ensures
        spec_decode(0x39, shift_held, caps_lock) == ' ' as u8,
{
}

/// Keys that type no character: Esc, Backspace, Tab, Enter, the Ctrl,
/// Shift and Alt keys, keypad `*`, Caps Lock, and every make code past the
/// space bar.
pub proof fn law_non_printing_keys(scancode: u8, shift_held: bool, caps_lock: bool)
    requires
        scancode == 0x00 || scancode == 0x01 || scancode == 0x0e || scancode == 0x0f || scancode == 0x1c
            || scancode == 0x1d || scancode == 0x2a || scancode == 0x36 || scancode == 0x37 || scancode == 0x38
            || scancode >= 0x3a,
    ensures
        spec_decode(scancode, shift_held, caps_lock) == 0,
{
}

/// With no prefix pending and Ctrl up, a make code that types a character
/// reports exactly that character and leaves the modifiers alone; Enter,
/// Backspace and Esc report their keys.
pub proof fn law_step_reports_typed_char(s: KeyboardState, code: u8)
    requires
        !s.extended,
        !s.ctrl_held,
        code < 0x80,
    ensures
        spec_decode(code, s.shift_held, s.caps_lock) != 0 ==> spec_step(s, code) == (s, Some(
            Key::Char(spec_decode(code, s.shift_held, s.caps_lock)),
        )),
        code == 0x1c ==> spec_step(s, code) == (s, Some(Key::Enter)),
        code == 0x0e ==> spec_step(s, code) == (s, Some(Key::Backspace)),
        code == 0x01 ==> spec_step(s, code) == (s, Some(Key::Escape)),
{
}

} // verus!
