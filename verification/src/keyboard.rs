use vstd::prelude::*;

verus! {

/// Scancode byte that announces an extended key.
pub const EXTENDED_PREFIX: u8 = 0xE0;

/// What the shell does for one key press.
#[derive(Debug, Clone, Copy, PartialEq, Eq, Structural)]
pub enum InputAction {
    Backspace,
    Enter,
    Tab,
    HistoryUp,
    HistoryDown,
    Char(char),
}

/// Modifier state of the PS/2 keyboard (scancode set 1).
#[derive(Debug, Clone, Copy, PartialEq, Eq, Structural)]
pub struct KeyboardState {
    pub shift_pressed: bool,
    pub caps_lock: bool,
    pub extended_prefix: bool,
}

/// The lower-case letter on a key, by its make code.
pub open spec fn letter_spec(scancode: u8) -> Option<char> {
    match scancode {
        0x10 => Some('q'),
        0x11 => Some('w'),
        0x12 => Some('e'),
        0x13 => Some('r'),
        0x14 => Some('t'),
        0x15 => Some('y'),
        0x16 => Some('u'),
        0x17 => Some('i'),
        0x18 => Some('o'),
        0x19 => Some('p'),
        0x1E => Some('a'),
        0x1F => Some('s'),
        0x20 => Some('d'),
        0x21 => Some('f'),
        0x22 => Some('g'),
        0x23 => Some('h'),
        0x24 => Some('j'),
        0x25 => Some('k'),
        0x26 => Some('l'),
        0x2C => Some('z'),
        0x2D => Some('x'),
        0x2E => Some('c'),
        0x2F => Some('v'),
        0x30 => Some('b'),
        0x31 => Some('n'),
        0x32 => Some('m'),
        _ => None,
    }
}

/// The character on a key that is not a letter: digits and punctuation
/// (their shifted form when `shifted`), space and the keypad keys.
pub open spec fn non_letter_spec(scancode: u8, shifted: bool) -> Option<char> {
    match scancode {
        0x02 => Some(if shifted { '!' } else { '1' }),
        0x03 => Some(if shifted { '@' } else { '2' }),
        0x04 => Some(if shifted { '#' } else { '3' }),
        0x05 => Some(if shifted { '$' } else { '4' }),
        0x06 => Some(if shifted { '%' } else { '5' }),
        0x07 => Some(if shifted { '^' } else { '6' }),
        0x08 => Some(if shifted { '&' } else { '7' }),
        0x09 => Some(if shifted { '*' } else { '8' }),
        0x0A => Some(if shifted { '(' } else { '9' }),
        0x0B => Some(if shifted { ')' } else { '0' }),
        0x0C => Some(if shifted { '_' } else { '-' }),
        0x0D => Some(if shifted { '+' } else { '=' }),
        0x1A => Some(if shifted { '{' } else { '[' }),
        0x1B => Some(if shifted { '}' } else { ']' }),
        0x27 => Some(if shifted { ':' } else { ';' }),
        0x28 => Some(if shifted { '"' } else { '\'' }),
        0x29 => Some(if shifted { '~' } else { '`' }),
        0x2B => Some(if shifted { '|' } else { '\\' }),
        0x33 => Some(if shifted { '<' } else { ',' }),
        0x34 => Some(if shifted { '>' } else { '.' }),
        0x35 => Some(if shifted { '?' } else { '/' }),
        0x39 => Some(' '),
        0x37 => Some('*'),
        0x47 => Some('7'),
        0x48 => Some('8'),
        0x49 => Some('9'),
        0x4A => Some('-'),
        0x4B => Some('4'),
        0x4C => Some('5'),
        0x4D => Some('6'),
        0x4E => Some('+'),
        0x4F => Some('1'),
        0x50 => Some('2'),
        0x51 => Some('3'),
        0x52 => Some('0'),
        0x53 => Some('.'),
        _ => None,
    }
}

/// ASCII upper case of a lower-case letter.
pub open spec fn upper_spec(c: char) -> char {
    if 'a' <= c && c <= 'z' {
        ((c as u32) - 32) as char
    } else {
        c
    }
}

/// The character a key produces: a letter is upper case when exactly one
/// of Shift and Caps Lock is on; other keys depend on Shift alone.
pub open spec fn key_spec(scancode: u8, shifted: bool, caps_lock: bool) -> Option<char> {
    match letter_spec(scancode) {
        Some(c) => Some(if caps_lock != shifted { upper_spec(c) } else { c }),
        None => non_letter_spec(scancode, shifted),
    }
}

pub fn map_letter_base(scancode: u8) -> (r: Option<char>)
    ensures
        r == letter_spec(scancode),
{
    match scancode {
        0x10 => Some('q'),
        0x11 => Some('w'),
        0x12 => Some('e'),
        0x13 => Some('r'),
        0x14 => Some('t'),
        0x15 => Some('y'),
        0x16 => Some('u'),
        0x17 => Some('i'),
        0x18 => Some('o'),
        0x19 => Some('p'),
        0x1E => Some('a'),
        0x1F => Some('s'),
        0x20 => Some('d'),
        0x21 => Some('f'),
        0x22 => Some('g'),
        0x23 => Some('h'),
        0x24 => Some('j'),
        0x25 => Some('k'),
        0x26 => Some('l'),
        0x2C => Some('z'),
        0x2D => Some('x'),
        0x2E => Some('c'),
        0x2F => Some('v'),
        0x30 => Some('b'),
        0x31 => Some('n'),
        0x32 => Some('m'),
        _ => None,
    }
}

pub fn map_non_letter(scancode: u8, shifted: bool) -> (r: Option<char>)
    ensures
        r == non_letter_spec(scancode, shifted),
{
    match scancode {
        0x02 => Some(if shifted { '!' } else { '1' }),
        0x03 => Some(if shifted { '@' } else { '2' }),
        0x04 => Some(if shifted { '#' } else { '3' }),
        0x05 => Some(if shifted { '$' } else { '4' }),
        0x06 => Some(if shifted { '%' } else { '5' }),
        0x07 => Some(if shifted { '^' } else { '6' }),
        0x08 => Some(if shifted { '&' } else { '7' }),
        0x09 => Some(if shifted { '*' } else { '8' }),
        0x0A => Some(if shifted { '(' } else { '9' }),
        0x0B => Some(if shifted { ')' } else { '0' }),
        0x0C => Some(if shifted { '_' } else { '-' }),
        0x0D => Some(if shifted { '+' } else { '=' }),
        0x1A => Some(if shifted { '{' } else { '[' }),
        0x1B => Some(if shifted { '}' } else { ']' }),
        0x27 => Some(if shifted { ':' } else { ';' }),
        0x28 => Some(if shifted { '"' } else { '\'' }),
        0x29 => Some(if shifted { '~' } else { '`' }),
        0x2B => Some(if shifted { '|' } else { '\\' }),
        0x33 => Some(if shifted { '<' } else { ',' }),
        0x34 => Some(if shifted { '>' } else { '.' }),
        0x35 => Some(if shifted { '?' } else { '/' }),
        0x39 => Some(' '),
        // keypad keys, as they arrive with Num Lock on
        0x37 => Some('*'),
        0x47 => Some('7'),
        0x48 => Some('8'),
        0x49 => Some('9'),
        0x4A => Some('-'),
        0x4B => Some('4'),
        0x4C => Some('5'),
        0x4D => Some('6'),
        0x4E => Some('+'),
        0x4F => Some('1'),
        0x50 => Some('2'),
        0x51 => Some('3'),
        0x52 => Some('0'),
        0x53 => Some('.'),
        _ => None,
    }
}

fn to_ascii_upper(c: char) -> (r: char)
    ensures
        r == upper_spec(c),
{
    if 'a' <= c && c <= 'z' {
        let code: u8 = (c as u8) - 32;
        code as char
    } else {
        c
    }
}

pub fn map_key(scancode: u8, shifted: bool, caps_lock: bool) -> (r: Option<char>)
    ensures
        r == key_spec(scancode, shifted, caps_lock),
{
    if let Some(c) = map_letter_base(scancode) {
        let c = if caps_lock ^ shifted {
            to_ascii_upper(c)
        } else {
            c
        };
        return Some(c);
    }
    map_non_letter(scancode, shifted)
}

/// The keyboard state after one scancode byte and the action the byte asks
/// for.
///
/// `0xE0` starts an extended key; after it, Up and Down (make codes `0x48`
/// and `0x50`) walk the history and every other extended key is ignored.
/// Otherwise a break code (high bit set) only releases Shift; Shift and Caps
/// Lock change the modifiers; Backspace, Enter and Tab have their own
/// actions; any other key gives the character `key_spec` names, if any.
pub open spec fn scancode_spec(state: KeyboardState, scancode: u8) -> (KeyboardState, Option<
    InputAction,
>) {
    let is_release = scancode >= 0x80;
    let code = (scancode % 0x80) as u8;
    if scancode == EXTENDED_PREFIX {
        (KeyboardState { extended_prefix: true, ..state }, None)
    } else if state.extended_prefix {
        let s = KeyboardState { extended_prefix: false, ..state };
        if is_release {
            (s, None)
        } else if code == 0x48 {
            (s, Some(InputAction::HistoryUp))
        } else if code == 0x50 {
            (s, Some(InputAction::HistoryDown))
        } else {
            (s, None)
        }
    } else if is_release {
        if code == 0x2A || code == 0x36 {
            (KeyboardState { shift_pressed: false, ..state }, None)
        } else {
            (state, None)
        }
    } else if code == 0x2A || code == 0x36 {
        (KeyboardState { shift_pressed: true, ..state }, None)
    } else if code == 0x3A {
        (KeyboardState { caps_lock: !state.caps_lock, ..state }, None)
    } else if code == 0x0E {
        (state, Some(InputAction::Backspace))
    } else if code == 0x1C {
        (state, Some(InputAction::Enter))
    } else if code == 0x0F {
        (state, Some(InputAction::Tab))
    } else {
        match key_spec(code, state.shift_pressed, state.caps_lock) {
            Some(c) => (state, Some(InputAction::Char(c))),
            None => (state, None),
        }
    }
}

impl KeyboardState {
    pub fn new() -> (s: KeyboardState)
        ensures
            s == (KeyboardState { shift_pressed: false, caps_lock: false, extended_prefix: false }),
    {
        KeyboardState { shift_pressed: false, caps_lock: false, extended_prefix: false }
    }

    /// Feeds one scancode byte; see `scancode_spec`.
    pub fn decode(&mut self, scancode: u8) -> (action: Option<InputAction>)
        ensures
            (*final(self), action) == scancode_spec(*old(self), scancode),
    {
        if scancode == EXTENDED_PREFIX {
            self.extended_prefix = true;
            return None;
        }
        let is_release = (scancode & 0x80) != 0;
        let code = scancode & 0x7F;
        assert(is_release == (scancode >= 0x80) && code == scancode % 0x80) by (bit_vector)
            requires
                is_release == ((scancode & 0x80) != 0),
                code == scancode & 0x7F,
        ;
        if self.extended_prefix {
            self.extended_prefix = false;
            if !is_release {
                if code == 0x48 {
                    return Some(InputAction::HistoryUp);
                } else if code == 0x50 {
                    return Some(InputAction::HistoryDown);
                }
            }
            return None;
        }
        if is_release {
            if code == 0x2A || code == 0x36 {
                self.shift_pressed = false;
            }
            return None;
        }
        if code == 0x2A || code == 0x36 {
            self.shift_pressed = true;
            None
        } else if code == 0x3A {
            self.caps_lock = !self.caps_lock;
            None
        } else if code == 0x0E {
            Some(InputAction::Backspace)
        } else if code == 0x1C {
            Some(InputAction::Enter)
        } else if code == 0x0F {
            Some(InputAction::Tab)
        } else {
            match map_key(code, self.shift_pressed, self.caps_lock) {
                Some(c) => Some(InputAction::Char(c)),
                None => None,
            }
        }
    }
}

// ---------------------------------------------------------------------------
// Laws of the keyboard decoder

/// Every character the keyboard produces is printable ASCII (a space or a
/// visible character).
pub proof fn law_keys_are_printable_ascii(scancode: u8, shifted: bool, caps_lock: bool)
    ensures
        key_spec(scancode, shifted, caps_lock) matches Some(c) ==> ' ' <= c && c <= '~',
{
}

/// Shift and Caps Lock cancel out on letters: with both on, a letter key
/// gives the same lower-case letter as with neither.
pub proof fn law_shift_and_caps_cancel(scancode: u8)
    requires
        letter_spec(scancode) is Some,
    ensures
        key_spec(scancode, true, true) == key_spec(scancode, false, false),
{
}

/// Different letter keys give different letters.
pub proof fn law_letter_keys_distinct(a: u8, b: u8)
    requires
        letter_spec(a) is Some,
        a != b,
    ensures
        letter_spec(a) != letter_spec(b),
{
}

/// An extended prefix followed by any byte leaves the prefix cleared and
/// the modifiers as they were.
pub proof fn law_extended_prefix_is_consumed(state: KeyboardState, scancode: u8)
    requires
        scancode != EXTENDED_PREFIX,
    ensures
        ({
            let (s1, _) = scancode_spec(state, EXTENDED_PREFIX);
            let (s2, _) = scancode_spec(s1, scancode);
            s2 == KeyboardState { extended_prefix: false, ..state }
        }),
{
}

/// Pressing and releasing Shift restores the modifier state.
pub proof fn law_shift_press_release(state: KeyboardState)
    requires
        !state.extended_prefix,
        !state.shift_pressed,
    ensures
        scancode_spec(scancode_spec(state, 0x2A).0, 0xAA).0 == state,
{
}


// ---------------------------------------------------------------------------
// The keyboard layout

/// The digit keys of the main row type their digits when Shift is up, and
/// Caps Lock does not change them: make code `0x02 + k` gives the digit
/// `k + 1` for `k < 9`, and `0x0B` gives `0`.
pub proof fn law_main_row_digits(k: u8, caps_lock: bool)
    requires
        k < 10,
    ensures
        key_spec((0x02 + k) as u8, false, caps_lock) is Some,
        key_spec((0x02 + k) as u8, false, caps_lock).unwrap() as u32 == (if k < 9 {
            0x31 + k
        } else {
            0x30
        }),
{
    if k == 0 {
    } else if k == 1 {
    } else if k == 2 {
    } else if k == 3 {
    } else if k == 4 {
    } else if k == 5 {
    } else if k == 6 {
    } else if k == 7 {
    } else if k == 8 {
    } else if k == 9 {
    } else {
    }
}

/// With Shift down, the main-row digit keys type the US symbols above them,
/// `!@#$%^&*()` from `1` to `0`, whatever Caps Lock says.
pub proof fn law_main_row_symbols(k: u8, caps_lock: bool)
    requires
        k < 10,
    ensures
        key_spec((0x02 + k) as u8, true, caps_lock) == Some(
            seq!['!', '@', '#', '$', '%', '^', '&', '*', '(', ')'][k as int],
        ),
{
    if k == 0 {
    } else if k == 1 {
    } else if k == 2 {
    } else if k == 3 {
    } else if k == 4 {
    } else if k == 5 {
    } else if k == 6 {
    } else if k == 7 {
    } else if k == 8 {
    } else if k == 9 {
    } else {
    }
}

/// The numeric keypad types its digits in its layout: rows `7 8 9`,
/// `4 5 6`, `1 2 3` from make codes `0x47`, `0x4B`, `0x4F`, and `0` on
/// `0x52`, with or without Shift and Caps Lock.
pub proof fn law_keypad_digits(row: u8, col: u8, shifted: bool, caps_lock: bool)
    requires
        row < 3,
        col < 3,
    ensures
        key_spec((0x47 + 4 * row + col) as u8, shifted, caps_lock) is Some,
        key_spec((0x47 + 4 * row + col) as u8, shifted, caps_lock).unwrap() as u32 == 0x37 - 3 * row
            + col,
        key_spec(0x52, shifted, caps_lock) == Some('0'),
{
    if row == 0 && col == 0 {
    } else if row == 0 && col == 1 {
    } else if row == 0 && col == 2 {
    } else if row == 1 && col == 0 {
    } else if row == 1 && col == 1 {
    } else if row == 1 && col == 2 {
    } else if row == 2 && col == 0 {
    } else if row == 2 && col == 1 {
    } else if row == 2 && col == 2 {
    } else {
    }
}

/// The letter keys follow the QWERTY rows: `qwertyuiop` from make code
/// `0x10`, `asdfghjkl` from `0x1E`, `zxcvbnm` from `0x2C`; lower case with
/// neither Shift nor Caps Lock.
pub proof fn law_letter_rows(k: u8)
    requires
        k < 10,
    ensures
        key_spec((0x10 + k) as u8, false, false) == Some(
            seq!['q', 'w', 'e', 'r', 't', 'y', 'u', 'i', 'o', 'p'][k as int],
        ),
        k < 9 ==> key_spec((0x1E + k) as u8, false, false) == Some(
            seq!['a', 's', 'd', 'f', 'g', 'h', 'j', 'k', 'l'][k as int],
        ),
        k < 7 ==> key_spec((0x2C + k) as u8, false, false) == Some(
            seq!['z', 'x', 'c', 'v', 'b', 'n', 'm'][k as int],
        ),
{
    if k == 0 {
    } else if k == 1 {
    } else if k == 2 {
    } else if k == 3 {
    } else if k == 4 {
    } else if k == 5 {
    } else if k == 6 {
    } else if k == 7 {
    } else if k == 8 {
    } else if k == 9 {
    } else {
    }
}

} // verus!
