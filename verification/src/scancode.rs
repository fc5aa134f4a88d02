//! PS/2 scan codes (set 1) and the Finnish keyboard layout.

use vstd::prelude::*;

verus! {

/// A key of a PS/2 keyboard, named after its scan code (set 1).
#[derive(Debug, Copy, Clone, PartialEq, Eq, Structural)]
pub enum KeyCode {
    Escape,
    Key1,
    Key2,
    Key3,
    Key4,
    Key5,
    Key6,
    Key7,
    Key8,
    Key9,
    Key0,
    Minus,
    Equals,
    Backspace,
    Tab,
    Q,
    W,
    E,
    R,
    T,
    Y,
    U,
    I,
    O,
    P,
    LeftBracket,
    RightBracket,
    Enter,
    LeftControl,
    A,
    S,
    D,
    F,
    G,
    H,
    J,
    K,
    L,
    Semicolon,
    Quote,
    Backtick,
    LeftShift,
    Backslash,
    Z,
    X,
    C,
    V,
    B,
    N,
    M,
    Comma,
    Dot,
    Slash,
    RightShift,
    KeypadStar,
    LeftAlt,
    Space,
    CapsLock,
    F1,
    F2,
    F3,
    F4,
    F5,
    F6,
    F7,
    F8,
    F9,
    F10,
    NumLock,
    ScrollLock,
    Keypad7,
    Keypad8,
    Keypad9,
    KeypadMinus,
    Keypad4,
    Keypad5,
    Keypad6,
    KeypadPlus,
    Keypad1,
    Keypad2,
    Keypad3,
    Keypad0,
    KeypadDot,
    SysRq,
    Fn,
    ISO,
    F11,
    F12,
    KeypadEnter,
    RightControl,
    KeypadSlash,
    RightAlt,
    Home,
    CursorUp,
    PageUp,
    CursorLeft,
    CursorRight,
    End,
    CursorDown,
    PageDown,
    Insert,
    Delete,
    LeftGUI, // Windows Key
    RightGUI, // Windows Key
    Apps, // Menu Key
}

impl KeyCode {
    /// The scan code of the key: one byte for standard keys, `0xE0` followed
    /// by one byte for extended keys.
    pub open spec fn spec_code(self) -> u16 {
        match self {
            KeyCode::Escape => 0x01,
            KeyCode::Key1 => 0x02,
            KeyCode::Key2 => 0x03,
            KeyCode::Key3 => 0x04,
            KeyCode::Key4 => 0x05,
            KeyCode::Key5 => 0x06,
            KeyCode::Key6 => 0x07,
            KeyCode::Key7 => 0x08,
            KeyCode::Key8 => 0x09,
            KeyCode::Key9 => 0x0A,
            KeyCode::Key0 => 0x0B,
            KeyCode::Minus => 0x0C,
            KeyCode::Equals => 0x0D,
            KeyCode::Backspace => 0x0E,
            KeyCode::Tab => 0x0F,
            KeyCode::Q => 0x10,
            KeyCode::W => 0x11,
            KeyCode::E => 0x12,
            KeyCode::R => 0x13,
            KeyCode::T => 0x14,
            KeyCode::Y => 0x15,
            KeyCode::U => 0x16,
            KeyCode::I => 0x17,
            KeyCode::O => 0x18,
            KeyCode::P => 0x19,
            KeyCode::LeftBracket => 0x1A,
            KeyCode::RightBracket => 0x1B,
            KeyCode::Enter => 0x1C,
            KeyCode::LeftControl => 0x1D,
            KeyCode::A => 0x1E,
            KeyCode::S => 0x1F,
            KeyCode::D => 0x20,
            KeyCode::F => 0x21,
            KeyCode::G => 0x22,
            KeyCode::H => 0x23,
            KeyCode::J => 0x24,
            KeyCode::K => 0x25,
            KeyCode::L => 0x26,
            KeyCode::Semicolon => 0x27,
            KeyCode::Quote => 0x28,
            KeyCode::Backtick => 0x29,
            KeyCode::LeftShift => 0x2A,
            KeyCode::Backslash => 0x2B,
            KeyCode::Z => 0x2C,
            KeyCode::X => 0x2D,
            KeyCode::C => 0x2E,
            KeyCode::V => 0x2F,
            KeyCode::B => 0x30,
            KeyCode::N => 0x31,
            KeyCode::M => 0x32,
            KeyCode::Comma => 0x33,
            KeyCode::Dot => 0x34,
            KeyCode::Slash => 0x35,
            KeyCode::RightShift => 0x36,
            KeyCode::KeypadStar => 0x37,
            KeyCode::LeftAlt => 0x38,
            KeyCode::Space => 0x39,
            KeyCode::CapsLock => 0x3A,
            KeyCode::F1 => 0x3B,
            KeyCode::F2 => 0x3C,
            KeyCode::F3 => 0x3D,
            KeyCode::F4 => 0x3E,
            KeyCode::F5 => 0x3F,
            KeyCode::F6 => 0x40,
            KeyCode::F7 => 0x41,
            KeyCode::F8 => 0x42,
            KeyCode::F9 => 0x43,
            KeyCode::F10 => 0x44,
            KeyCode::NumLock => 0x45,
            KeyCode::ScrollLock => 0x46,
            KeyCode::Keypad7 => 0x47,
            KeyCode::Keypad8 => 0x48,
            KeyCode::Keypad9 => 0x49,
            KeyCode::KeypadMinus => 0x4A,
            KeyCode::Keypad4 => 0x4B,
            KeyCode::Keypad5 => 0x4C,
            KeyCode::Keypad6 => 0x4D,
            KeyCode::KeypadPlus => 0x4E,
            KeyCode::Keypad1 => 0x4F,
            KeyCode::Keypad2 => 0x50,
            KeyCode::Keypad3 => 0x51,
            KeyCode::Keypad0 => 0x52,
            KeyCode::KeypadDot => 0x53,
            KeyCode::SysRq => 0x54,
            KeyCode::Fn => 0x55,
            KeyCode::ISO => 0x56,
            KeyCode::F11 => 0x57,
            KeyCode::F12 => 0x58,
            KeyCode::KeypadEnter => 0xE01C,
            KeyCode::RightControl => 0xE01D,
            KeyCode::KeypadSlash => 0xE035,
            KeyCode::RightAlt => 0xE038,
            KeyCode::Home => 0xE047,
            KeyCode::CursorUp => 0xE048,
            KeyCode::PageUp => 0xE049,
            KeyCode::CursorLeft => 0xE04B,
            KeyCode::CursorRight => 0xE04D,
            KeyCode::End => 0xE04F,
            KeyCode::CursorDown => 0xE050,
            KeyCode::PageDown => 0xE051,
            KeyCode::Insert => 0xE052,
            KeyCode::Delete => 0xE053,
            KeyCode::LeftGUI => 0xE05B,
            KeyCode::RightGUI => 0xE05C,
            KeyCode::Apps => 0xE05D,
        }
    }

    /// Returns the scan code of the key.
    pub fn code(&self) -> (r: u16)
        ensures
            r == self.spec_code(),
    {
        match self {
            KeyCode::Escape => 0x01,
            KeyCode::Key1 => 0x02,
            KeyCode::Key2 => 0x03,
            KeyCode::Key3 => 0x04,
            KeyCode::Key4 => 0x05,
            KeyCode::Key5 => 0x06,
            KeyCode::Key6 => 0x07,
            KeyCode::Key7 => 0x08,
            KeyCode::Key8 => 0x09,
            KeyCode::Key9 => 0x0A,
            KeyCode::Key0 => 0x0B,
            KeyCode::Minus => 0x0C,
            KeyCode::Equals => 0x0D,
            KeyCode::Backspace => 0x0E,
            KeyCode::Tab => 0x0F,
            KeyCode::Q => 0x10,
            KeyCode::W => 0x11,
            KeyCode::E => 0x12,
            KeyCode::R => 0x13,
            KeyCode::T => 0x14,
            KeyCode::Y => 0x15,
            KeyCode::U => 0x16,
            KeyCode::I => 0x17,
            KeyCode::O => 0x18,
            KeyCode::P => 0x19,
            KeyCode::LeftBracket => 0x1A,
            KeyCode::RightBracket => 0x1B,
            KeyCode::Enter => 0x1C,
            KeyCode::LeftControl => 0x1D,
            KeyCode::A => 0x1E,
            KeyCode::S => 0x1F,
            KeyCode::D => 0x20,
            KeyCode::F => 0x21,
            KeyCode::G => 0x22,
            KeyCode::H => 0x23,
            KeyCode::J => 0x24,
            KeyCode::K => 0x25,
            KeyCode::L => 0x26,
            KeyCode::Semicolon => 0x27,
            KeyCode::Quote => 0x28,
            KeyCode::Backtick => 0x29,
            KeyCode::LeftShift => 0x2A,
            KeyCode::Backslash => 0x2B,
            KeyCode::Z => 0x2C,
            KeyCode::X => 0x2D,
            KeyCode::C => 0x2E,
            KeyCode::V => 0x2F,
            KeyCode::B => 0x30,
            KeyCode::N => 0x31,
            KeyCode::M => 0x32,
            KeyCode::Comma => 0x33,
            KeyCode::Dot => 0x34,
            KeyCode::Slash => 0x35,
            KeyCode::RightShift => 0x36,
            KeyCode::KeypadStar => 0x37,
            KeyCode::LeftAlt => 0x38,
            KeyCode::Space => 0x39,
            KeyCode::CapsLock => 0x3A,
            KeyCode::F1 => 0x3B,
            KeyCode::F2 => 0x3C,
            KeyCode::F3 => 0x3D,
            KeyCode::F4 => 0x3E,
            KeyCode::F5 => 0x3F,
            KeyCode::F6 => 0x40,
            KeyCode::F7 => 0x41,
            KeyCode::F8 => 0x42,
            KeyCode::F9 => 0x43,
            KeyCode::F10 => 0x44,
            KeyCode::NumLock => 0x45,
            KeyCode::ScrollLock => 0x46,
            KeyCode::Keypad7 => 0x47,
            KeyCode::Keypad8 => 0x48,
            KeyCode::Keypad9 => 0x49,
            KeyCode::KeypadMinus => 0x4A,
            KeyCode::Keypad4 => 0x4B,
            KeyCode::Keypad5 => 0x4C,
            KeyCode::Keypad6 => 0x4D,
            KeyCode::KeypadPlus => 0x4E,
            KeyCode::Keypad1 => 0x4F,
            KeyCode::Keypad2 => 0x50,
            KeyCode::Keypad3 => 0x51,
            KeyCode::Keypad0 => 0x52,
            KeyCode::KeypadDot => 0x53,
            KeyCode::SysRq => 0x54,
            KeyCode::Fn => 0x55,
            KeyCode::ISO => 0x56,
            KeyCode::F11 => 0x57,
            KeyCode::F12 => 0x58,
            KeyCode::KeypadEnter => 0xE01C,
            KeyCode::RightControl => 0xE01D,
            KeyCode::KeypadSlash => 0xE035,
            KeyCode::RightAlt => 0xE038,
            KeyCode::Home => 0xE047,
            KeyCode::CursorUp => 0xE048,
            KeyCode::PageUp => 0xE049,
            KeyCode::CursorLeft => 0xE04B,
            KeyCode::CursorRight => 0xE04D,
            KeyCode::End => 0xE04F,
            KeyCode::CursorDown => 0xE050,
            KeyCode::PageDown => 0xE051,
            KeyCode::Insert => 0xE052,
            KeyCode::Delete => 0xE053,
            KeyCode::LeftGUI => 0xE05B,
            KeyCode::RightGUI => 0xE05C,
            KeyCode::Apps => 0xE05D,
        }
    }

    /// Decodes a keyboard event into the key it concerns. The release bit
    /// (`0x80`) is ignored; `None` is returned for unknown codes.
    pub fn from_u16(code: u16) -> (r: Option<Self>)
        ensures
            r == spec_from_u16(code),
    {
        let base_code = code & 0xFF7F;
        proof {
            lemma_codes_injective();
        }
        let r = match base_code {
            0x01 => Some(KeyCode::Escape),
            0x02 => Some(KeyCode::Key1),
            0x03 => Some(KeyCode::Key2),
            0x04 => Some(KeyCode::Key3),
            0x05 => Some(KeyCode::Key4),
            0x06 => Some(KeyCode::Key5),
            0x07 => Some(KeyCode::Key6),
            0x08 => Some(KeyCode::Key7),
            0x09 => Some(KeyCode::Key8),
            0x0A => Some(KeyCode::Key9),
            0x0B => Some(KeyCode::Key0),
            0x0C => Some(KeyCode::Minus),
            0x0D => Some(KeyCode::Equals),
            0x0E => Some(KeyCode::Backspace),
            0x0F => Some(KeyCode::Tab),
            0x10 => Some(KeyCode::Q),
            0x11 => Some(KeyCode::W),
            0x12 => Some(KeyCode::E),
            0x13 => Some(KeyCode::R),
            0x14 => Some(KeyCode::T),
            0x15 => Some(KeyCode::Y),
            0x16 => Some(KeyCode::U),
            0x17 => Some(KeyCode::I),
            0x18 => Some(KeyCode::O),
            0x19 => Some(KeyCode::P),
            0x1A => Some(KeyCode::LeftBracket),
            0x1B => Some(KeyCode::RightBracket),
            0x1C => Some(KeyCode::Enter),
            0x1D => Some(KeyCode::LeftControl),
            0x1E => Some(KeyCode::A),
            0x1F => Some(KeyCode::S),
            0x20 => Some(KeyCode::D),
            0x21 => Some(KeyCode::F),
            0x22 => Some(KeyCode::G),
            0x23 => Some(KeyCode::H),
            0x24 => Some(KeyCode::J),
            0x25 => Some(KeyCode::K),
            0x26 => Some(KeyCode::L),
            0x27 => Some(KeyCode::Semicolon),
            0x28 => Some(KeyCode::Quote),
            0x29 => Some(KeyCode::Backtick),
            0x2A => Some(KeyCode::LeftShift),
            0x2B => Some(KeyCode::Backslash),
            0x2C => Some(KeyCode::Z),
            0x2D => Some(KeyCode::X),
            0x2E => Some(KeyCode::C),
            0x2F => Some(KeyCode::V),
            0x30 => Some(KeyCode::B),
            0x31 => Some(KeyCode::N),
            0x32 => Some(KeyCode::M),
            0x33 => Some(KeyCode::Comma),
            0x34 => Some(KeyCode::Dot),
            0x35 => Some(KeyCode::Slash),
            0x36 => Some(KeyCode::RightShift),
            0x37 => Some(KeyCode::KeypadStar),
            0x38 => Some(KeyCode::LeftAlt),
            0x39 => Some(KeyCode::Space),
            0x3A => Some(KeyCode::CapsLock),
            0x3B => Some(KeyCode::F1),
            0x3C => Some(KeyCode::F2),
            0x3D => Some(KeyCode::F3),
            0x3E => Some(KeyCode::F4),
            0x3F => Some(KeyCode::F5),
            0x40 => Some(KeyCode::F6),
            0x41 => Some(KeyCode::F7),
            0x42 => Some(KeyCode::F8),
            0x43 => Some(KeyCode::F9),
            0x44 => Some(KeyCode::F10),
            0x45 => Some(KeyCode::NumLock),
            0x46 => Some(KeyCode::ScrollLock),
            0x47 => Some(KeyCode::Keypad7),
            0x48 => Some(KeyCode::Keypad8),
            0x49 => Some(KeyCode::Keypad9),
            0x4A => Some(KeyCode::KeypadMinus),
            0x4B => Some(KeyCode::Keypad4),
            0x4C => Some(KeyCode::Keypad5),
            0x4D => Some(KeyCode::Keypad6),
            0x4E => Some(KeyCode::KeypadPlus),
            0x4F => Some(KeyCode::Keypad1),
            0x50 => Some(KeyCode::Keypad2),
            0x51 => Some(KeyCode::Keypad3),
            0x52 => Some(KeyCode::Keypad0),
            0x53 => Some(KeyCode::KeypadDot),
            0x54 => Some(KeyCode::SysRq),
            0x55 => Some(KeyCode::Fn),
            0x56 => Some(KeyCode::ISO),
            0x57 => Some(KeyCode::F11),
            0x58 => Some(KeyCode::F12),
            0xE01C => Some(KeyCode::KeypadEnter),
            0xE01D => Some(KeyCode::RightControl),
            0xE035 => Some(KeyCode::KeypadSlash),
            0xE038 => Some(KeyCode::RightAlt),
            0xE047 => Some(KeyCode::Home),
            0xE048 => Some(KeyCode::CursorUp),
            0xE049 => Some(KeyCode::PageUp),
            0xE04B => Some(KeyCode::CursorLeft),
            0xE04D => Some(KeyCode::CursorRight),
            0xE04F => Some(KeyCode::End),
            0xE050 => Some(KeyCode::CursorDown),
            0xE051 => Some(KeyCode::PageDown),
            0xE052 => Some(KeyCode::Insert),
            0xE053 => Some(KeyCode::Delete),
            0xE05B => Some(KeyCode::LeftGUI),
            0xE05C => Some(KeyCode::RightGUI),
            0xE05D => Some(KeyCode::Apps),
            _ => None,
        };
        proof {
            if let Some(k) = r {
                assert(k.spec_code() == base_code);
            }
        }
        r
    }
}

/// The Finnish layout: the characters of the key with scan code `i`
/// without modifier, with shift and with AltGr (`'\0'` where there is none).
pub open spec fn finnish_entry(i: int) -> KeyChars {
    if i == 0xa {
        KeyChars { none: '9', shift: ')', alt_gr: '}' }
    }
    else if i == 0x02 {
        KeyChars { none: '1', shift: '!', alt_gr: '\u{0}' }
    }
    else if i == 0x03 {
        KeyChars { none: '2', shift: '"', alt_gr: '@' }
    }
    else if i == 0x04 {
        KeyChars { none: '3', shift: '#', alt_gr: '\u{a3}' }
    }
    else if i == 0x05 {
        KeyChars { none: '4', shift: '\u{a4}', alt_gr: '$' }
    }
    else if i == 0x06 {
        KeyChars { none: '5', shift: '%', alt_gr: '\u{20ac}' }
    }
    else if i == 0x07 {
        KeyChars { none: '6', shift: '&', alt_gr: '{' }
    }
    else if i == 0x08 {
        KeyChars { none: '7', shift: '/', alt_gr: '[' }
    }
    else if i == 0x09 {
        KeyChars { none: '8', shift: '(', alt_gr: ']' }
    }
    else if i == 0x0b {
        KeyChars { none: '0', shift: '=', alt_gr: '\\' }
    }
    else if i == 0x0c {
        KeyChars { none: '+', shift: '?', alt_gr: '`' }
    }
    else if i == 0x0d {
        KeyChars { none: '\u{b4}', shift: '`', alt_gr: '\u{0}' }
    }
    else if i == 0x0e {
        KeyChars { none: '\u{8}', shift: '\u{8}', alt_gr: '\u{8}' }
    }
    else if i == 0x0f {
        KeyChars { none: '\u{9}', shift: '\u{9}', alt_gr: '\u{9}' }
    }
    else if i == 0x10 {
        KeyChars { none: 'q', shift: 'Q', alt_gr: '\u{0}' }
    }
    else if i == 0x11 {
        KeyChars { none: 'w', shift: 'W', alt_gr: '\u{0}' }
    }
    else if i == 0x12 {
        KeyChars { none: 'e', shift: 'E', alt_gr: '\u{20ac}' }
    }
    else if i == 0x13 {
        KeyChars { none: 'r', shift: 'R', alt_gr: '\u{0}' }
    }
    else if i == 0x14 {
        KeyChars { none: 't', shift: 'T', alt_gr: '\u{0}' }
    }
    else if i == 0x15 {
        KeyChars { none: 'y', shift: 'Y', alt_gr: '\u{0}' }
    }
    else if i == 0x16 {
        KeyChars { none: 'u', shift: 'U', alt_gr: '\u{0}' }
    }
    else if i == 0x17 {
        KeyChars { none: 'i', shift: 'I', alt_gr: '\u{0}' }
    }
    else if i == 0x18 {
        KeyChars { none: 'o', shift: 'O', alt_gr: '\u{0}' }
    }
    else if i == 0x19 {
        KeyChars { none: 'p', shift: 'P', alt_gr: '\u{0}' }
    }
    else if i == 0x1a {
        KeyChars { none: '\u{e5}', shift: '\u{c5}', alt_gr: '\u{0}' }
    }
    else if i == 0x1b {
        KeyChars { none: '\u{a8}', shift: '^', alt_gr: '~' }
    }
    else if i == 0x1c {
        KeyChars { none: '\u{a}', shift: '\u{a}', alt_gr: '\u{0}' }
    }
    else if i == 0x1e {
        KeyChars { none: 'a', shift: 'A', alt_gr: '\u{0}' }
    }
    else if i == 0x1f {
        KeyChars { none: 's', shift: 'S', alt_gr: '\u{0}' }
    }
    else if i == 0x20 {
        KeyChars { none: 'd', shift: 'D', alt_gr: '\u{0}' }
    }
    else if i == 0x21 {
        KeyChars { none: 'f', shift: 'F', alt_gr: '\u{0}' }
    }
    else if i == 0x22 {
        KeyChars { none: 'g', shift: 'G', alt_gr: '\u{0}' }
    }
    else if i == 0x23 {
        KeyChars { none: 'h', shift: 'H', alt_gr: '\u{0}' }
    }
    else if i == 0x24 {
        KeyChars { none: 'j', shift: 'J', alt_gr: '\u{0}' }
    }
    else if i == 0x25 {
        KeyChars { none: 'k', shift: 'K', alt_gr: '\u{0}' }
    }
    else if i == 0x26 {
        KeyChars { none: 'l', shift: 'L', alt_gr: '\u{0}' }
    }
    else if i == 0x27 {
        KeyChars { none: '\u{f6}', shift: '\u{d6}', alt_gr: '\u{0}' }
    }
    else if i == 0x28 {
        KeyChars { none: '\u{e4}', shift: '\u{c4}', alt_gr: '\u{0}' }
    }
    else if i == 0x29 {
        KeyChars { none: '\u{a7}', shift: '\u{bd}', alt_gr: '\u{0}' }
    }
    else if i == 0x2b {
        KeyChars { none: '\'', shift: '*', alt_gr: '\u{0}' }
    }
    else if i == 0x2c {
        KeyChars { none: 'z', shift: 'Z', alt_gr: '\u{0}' }
    }
    else if i == 0x2d {
        KeyChars { none: 'x', shift: 'X', alt_gr: '\u{0}' }
    }
    else if i == 0x2e {
        KeyChars { none: 'c', shift: 'C', alt_gr: '\u{0}' }
    }
    else if i == 0x2f {
        KeyChars { none: 'v', shift: 'V', alt_gr: '\u{0}' }
    }
    else if i == 0x30 {
        KeyChars { none: 'b', shift: 'B', alt_gr: '\u{0}' }
    }
    else if i == 0x31 {
        KeyChars { none: 'n', shift: 'N', alt_gr: '\u{0}' }
    }
    else if i == 0x32 {
        KeyChars { none: 'm', shift: 'M', alt_gr: '\u{0}' }
    }
    else if i == 0x33 {
        KeyChars { none: ',', shift: ';', alt_gr: '\u{0}' }
    }
    else if i == 0x34 {
        KeyChars { none: '.', shift: ':', alt_gr: '\u{0}' }
    }
    else if i == 0x35 {
        KeyChars { none: '-', shift: '_', alt_gr: '\u{0}' }
    }
    else if i == 0x39 {
        KeyChars { none: ' ', shift: ' ', alt_gr: '\u{0}' }
    }
    else if i == 0x56 {
        KeyChars { none: '<', shift: '>', alt_gr: '|' }
    }
    else {
        KeyChars { none: '\0', shift: '\0', alt_gr: '\0' }
    }
}

/// The entry of the Finnish layout for scan code byte `i`.
pub fn finnish_entry_exec(i: usize) -> (r: KeyChars)
    ensures
        r == finnish_entry(i as int),
{
    if i == 0xa {
        KeyChars { none: '9', shift: ')', alt_gr: '}' }
    }
    else if i == 0x02 {
        KeyChars { none: '1', shift: '!', alt_gr: '\u{0}' }
    }
    else if i == 0x03 {
        KeyChars { none: '2', shift: '"', alt_gr: '@' }
    }
    else if i == 0x04 {
        KeyChars { none: '3', shift: '#', alt_gr: '\u{a3}' }
    }
    else if i == 0x05 {
        KeyChars { none: '4', shift: '\u{a4}', alt_gr: '$' }
    }
    else if i == 0x06 {
        KeyChars { none: '5', shift: '%', alt_gr: '\u{20ac}' }
    }
    else if i == 0x07 {
        KeyChars { none: '6', shift: '&', alt_gr: '{' }
    }
    else if i == 0x08 {
        KeyChars { none: '7', shift: '/', alt_gr: '[' }
    }
    else if i == 0x09 {
        KeyChars { none: '8', shift: '(', alt_gr: ']' }
    }
    else if i == 0x0b {
        KeyChars { none: '0', shift: '=', alt_gr: '\\' }
    }
    else if i == 0x0c {
        KeyChars { none: '+', shift: '?', alt_gr: '`' }
    }
    else if i == 0x0d {
        KeyChars { none: '\u{b4}', shift: '`', alt_gr: '\u{0}' }
    }
    else if i == 0x0e {
        KeyChars { none: '\u{8}', shift: '\u{8}', alt_gr: '\u{8}' }
    }
    else if i == 0x0f {
        KeyChars { none: '\u{9}', shift: '\u{9}', alt_gr: '\u{9}' }
    }
    else if i == 0x10 {
        KeyChars { none: 'q', shift: 'Q', alt_gr: '\u{0}' }
    }
    else if i == 0x11 {
        KeyChars { none: 'w', shift: 'W', alt_gr: '\u{0}' }
    }
    else if i == 0x12 {
        KeyChars { none: 'e', shift: 'E', alt_gr: '\u{20ac}' }
    }
    else if i == 0x13 {
        KeyChars { none: 'r', shift: 'R', alt_gr: '\u{0}' }
    }
    else if i == 0x14 {
        KeyChars { none: 't', shift: 'T', alt_gr: '\u{0}' }
    }
    else if i == 0x15 {
        KeyChars { none: 'y', shift: 'Y', alt_gr: '\u{0}' }
    }
    else if i == 0x16 {
        KeyChars { none: 'u', shift: 'U', alt_gr: '\u{0}' }
    }
    else if i == 0x17 {
        KeyChars { none: 'i', shift: 'I', alt_gr: '\u{0}' }
    }
    else if i == 0x18 {
        KeyChars { none: 'o', shift: 'O', alt_gr: '\u{0}' }
    }
    else if i == 0x19 {
        KeyChars { none: 'p', shift: 'P', alt_gr: '\u{0}' }
    }
    else if i == 0x1a {
        KeyChars { none: '\u{e5}', shift: '\u{c5}', alt_gr: '\u{0}' }
    }
    else if i == 0x1b {
        KeyChars { none: '\u{a8}', shift: '^', alt_gr: '~' }
    }
    else if i == 0x1c {
        KeyChars { none: '\u{a}', shift: '\u{a}', alt_gr: '\u{0}' }
    }
    else if i == 0x1e {
        KeyChars { none: 'a', shift: 'A', alt_gr: '\u{0}' }
    }
    else if i == 0x1f {
        KeyChars { none: 's', shift: 'S', alt_gr: '\u{0}' }
    }
    else if i == 0x20 {
        KeyChars { none: 'd', shift: 'D', alt_gr: '\u{0}' }
    }
    else if i == 0x21 {
        KeyChars { none: 'f', shift: 'F', alt_gr: '\u{0}' }
    }
    else if i == 0x22 {
        KeyChars { none: 'g', shift: 'G', alt_gr: '\u{0}' }
    }
    else if i == 0x23 {
        KeyChars { none: 'h', shift: 'H', alt_gr: '\u{0}' }
    }
    else if i == 0x24 {
        KeyChars { none: 'j', shift: 'J', alt_gr: '\u{0}' }
    }
    else if i == 0x25 {
        KeyChars { none: 'k', shift: 'K', alt_gr: '\u{0}' }
    }
    else if i == 0x26 {
        KeyChars { none: 'l', shift: 'L', alt_gr: '\u{0}' }
    }
    else if i == 0x27 {
        KeyChars { none: '\u{f6}', shift: '\u{d6}', alt_gr: '\u{0}' }
    }
    else if i == 0x28 {
        KeyChars { none: '\u{e4}', shift: '\u{c4}', alt_gr: '\u{0}' }
    }
    else if i == 0x29 {
        KeyChars { none: '\u{a7}', shift: '\u{bd}', alt_gr: '\u{0}' }
    }
    else if i == 0x2b {
        KeyChars { none: '\'', shift: '*', alt_gr: '\u{0}' }
    }
    else if i == 0x2c {
        KeyChars { none: 'z', shift: 'Z', alt_gr: '\u{0}' }
    }
    else if i == 0x2d {
        KeyChars { none: 'x', shift: 'X', alt_gr: '\u{0}' }
    }
    else if i == 0x2e {
        KeyChars { none: 'c', shift: 'C', alt_gr: '\u{0}' }
    }
    else if i == 0x2f {
        KeyChars { none: 'v', shift: 'V', alt_gr: '\u{0}' }
    }
    else if i == 0x30 {
        KeyChars { none: 'b', shift: 'B', alt_gr: '\u{0}' }
    }
    else if i == 0x31 {
        KeyChars { none: 'n', shift: 'N', alt_gr: '\u{0}' }
    }
    else if i == 0x32 {
        KeyChars { none: 'm', shift: 'M', alt_gr: '\u{0}' }
    }
    else if i == 0x33 {
        KeyChars { none: ',', shift: ';', alt_gr: '\u{0}' }
    }
    else if i == 0x34 {
        KeyChars { none: '.', shift: ':', alt_gr: '\u{0}' }
    }
    else if i == 0x35 {
        KeyChars { none: '-', shift: '_', alt_gr: '\u{0}' }
    }
    else if i == 0x39 {
        KeyChars { none: ' ', shift: ' ', alt_gr: '\u{0}' }
    }
    else if i == 0x56 {
        KeyChars { none: '<', shift: '>', alt_gr: '|' }
    }
    else {
        KeyChars { none: '\0', shift: '\0', alt_gr: '\0' }
    }
}

impl KeyCode {
    /// Whether the keyboard event `code` is a key release.
    pub fn is_release(code: u16) -> (r: bool)
        ensures
            r == (code & 0x80 != 0),
    {
        (code & 0x80) != 0
    }
}

/// The key whose scan code is `code` with the release bit (`0x80`) cleared,
/// if there is one.
pub open spec fn spec_from_u16(code: u16) -> Option<KeyCode> {
    if exists|k: KeyCode| #[trigger] k.spec_code() == code & 0xFF7F {
        Some(choose|k: KeyCode| #[trigger] k.spec_code() == code & 0xFF7F)
    } else {
        None
    }
}

/// No two keys share a scan code.
proof fn lemma_codes_injective()
    ensures
        forall|a: KeyCode, b: KeyCode| #[trigger] a.spec_code() == #[trigger] b.spec_code() ==> a == b,
{
}

/// Decoding gives back every key from its own scan code, whether the event is
/// a press or a release, and `is_release` tells the two apart.
pub proof fn lemma_from_u16_roundtrip(k: KeyCode)
    ensures
        spec_from_u16(k.spec_code()) == Some(k),
        spec_from_u16(k.spec_code() | 0x80) == Some(k),
        k.spec_code() & 0x80 == 0,
        (k.spec_code() | 0x80) & 0x80 != 0,
{
    lemma_codes_injective();
    let c = k.spec_code();
    assert(c & 0xFF7F == c && (c | 0x80) & 0xFF7F == c && c & 0x80 == 0 && (c | 0x80) & 0x80 != 0) by {
        lemma_code_bits(k);
    }
}

proof fn lemma_code_bits(k: KeyCode)
    ensures
        ({
            let c = k.spec_code();
            c & 0xFF7F == c && (c | 0x80) & 0xFF7F == c && c & 0x80 == 0 && (c | 0x80) & 0x80 != 0
        }),
{
    let c = k.spec_code();
    assert(c % 256 < 0x80);
    lemma_release_bit(c);
}

proof fn lemma_release_bit(c: u16)
    by (bit_vector)
    requires
        c % 256 < 0x80,
    ensures
        c & 0xFF7F == c && (c | 0x80) & 0xFF7F == c && c & 0x80 == 0 && (c | 0x80) & 0x80 != 0,
{
}

/// The characters one key produces without modifier, with shift, and with
/// AltGr. `'\0'` stands for no character.
#[derive(Copy, Clone, Debug, PartialEq, Eq, Structural)]
pub struct KeyChars {
    pub none: char,
    pub shift: char,
    pub alt_gr: char,
}

/// The character of `chars` that the modifier state selects: none with no
/// modifier, shift with shift alone, AltGr otherwise.
pub open spec fn select_char(chars: KeyChars, shift: bool, alt_gr: bool) -> char {
    if !shift && !alt_gr {
        chars.none
    } else if shift && !alt_gr {
        chars.shift
    } else {
        chars.alt_gr
    }
}

/// The character a key gives in a layout table, by the low byte of its scan
/// code, or `None` where the table holds `'\0'`.
pub open spec fn spec_char_from_lookup(
    lookup: Seq<KeyChars>,
    key: KeyCode,
    shift: bool,
    alt_gr: bool,
) -> Option<char> {
    let c = select_char(lookup[(key.spec_code() % 256) as int], shift, alt_gr);
    if c == '\0' {
        None
    } else {
        Some(c)
    }
}

/// The Finnish layout as a table indexed by the low byte of the scan code.
pub open spec fn finnish_table() -> Seq<KeyChars> {
    Seq::new(128, |i: int| finnish_entry(i))
}

/// Returns the Finnish layout table.
pub fn finnish_lookup() -> (r: [KeyChars; 128])
    ensures
        r@ == finnish_table(),
{
    let mut table = [KeyChars { none: '\0', shift: '\0', alt_gr: '\0' }; 128];
    let mut i: usize = 0;
    while i < 128
        invariant
            i <= 128,
            table@.len() == 128,
            forall|j: int| 0 <= j < i ==> table@[j] == finnish_entry(j),
        decreases 128 - i,
    {
        let e = finnish_entry_exec(i);
        table[i] = e;
        i = i + 1;
    }
    assert(table@ =~= finnish_table());
    table
}

fn char_from_lookup(lookup: &[KeyChars; 128], key: KeyCode, shift: bool, alt_gr: bool) -> (r:
    Option<char>)
    ensures
        r == spec_char_from_lookup(lookup@, key, shift, alt_gr),
{
    let index = (key.code() & 0xff) as usize;
    proof {
        lemma_low_byte(key.spec_code());
    }
    if index >= 128 {
        proof {
            lemma_key_low_byte_small(key);
        }
    }
    let chars = lookup[index];
    let c = match (shift, alt_gr) {
        (false, false) => chars.none,
        (true, false) => chars.shift,
        _ => chars.alt_gr,
    };
    if c == '\0' {
        None
    } else {
        Some(c)
    }
}

/// The character `key` gives on a Finnish keyboard with the given modifiers.
pub fn get_finnish_char(key: KeyCode, shift: bool, alt_gr: bool) -> (r: Option<char>)
    ensures
        r == spec_char_from_lookup(finnish_table(), key, shift, alt_gr),
{
    let table = finnish_lookup();
    char_from_lookup(&table, key, shift, alt_gr)
}

proof fn lemma_low_byte(c: u16)
    by (bit_vector)
    ensures
        c & 0xff == c % 256,
{
}

/// The low byte of every scan code indexes the layout table.
proof fn lemma_key_low_byte_small(k: KeyCode)
    ensures
        k.spec_code() % 256 < 128,
{
}

/// The letter a key is named after on a Finnish keyboard, in lower and in
/// upper case: the Latin letters and the keys of å, ö and ä.
pub open spec fn key_letter(k: KeyCode) -> Option<(char, char)> {
    match k {
        KeyCode::A => Some(('a', 'A')),
        KeyCode::B => Some(('b', 'B')),
        KeyCode::C => Some(('c', 'C')),
        KeyCode::D => Some(('d', 'D')),
        KeyCode::E => Some(('e', 'E')),
        KeyCode::F => Some(('f', 'F')),
        KeyCode::G => Some(('g', 'G')),
        KeyCode::H => Some(('h', 'H')),
        KeyCode::I => Some(('i', 'I')),
        KeyCode::J => Some(('j', 'J')),
        KeyCode::K => Some(('k', 'K')),
        KeyCode::L => Some(('l', 'L')),
        KeyCode::M => Some(('m', 'M')),
        KeyCode::N => Some(('n', 'N')),
        KeyCode::O => Some(('o', 'O')),
        KeyCode::P => Some(('p', 'P')),
        KeyCode::Q => Some(('q', 'Q')),
        KeyCode::R => Some(('r', 'R')),
        KeyCode::S => Some(('s', 'S')),
        KeyCode::T => Some(('t', 'T')),
        KeyCode::U => Some(('u', 'U')),
        KeyCode::V => Some(('v', 'V')),
        KeyCode::W => Some(('w', 'W')),
        KeyCode::X => Some(('x', 'X')),
        KeyCode::Y => Some(('y', 'Y')),
        KeyCode::Z => Some(('z', 'Z')),
        KeyCode::LeftBracket => Some(('\u{e5}', '\u{c5}')),
        KeyCode::Semicolon => Some(('\u{f6}', '\u{d6}')),
        KeyCode::Quote => Some(('\u{e4}', '\u{c4}')),
        _ => None,
    }
}

/// The digit a key of the number row is named after.
pub open spec fn key_digit(k: KeyCode) -> Option<char> {
    match k {
        KeyCode::Key1 => Some('1'),
        KeyCode::Key2 => Some('2'),
        KeyCode::Key3 => Some('3'),
        KeyCode::Key4 => Some('4'),
        KeyCode::Key5 => Some('5'),
        KeyCode::Key6 => Some('6'),
        KeyCode::Key7 => Some('7'),
        KeyCode::Key8 => Some('8'),
        KeyCode::Key9 => Some('9'),
        KeyCode::Key0 => Some('0'),
        _ => None,
    }
}

/// On the Finnish layout every letter key types its own letter, in lower
/// case without modifier and in upper case with shift, and every key of the
/// number row types its digit without modifier.
pub proof fn lemma_finnish_letters_and_digits(k: KeyCode)
    ensures
        key_letter(k) is Some ==> spec_char_from_lookup(finnish_table(), k, false, false) == Some(
            key_letter(k).unwrap().0,
        ),
        key_letter(k) is Some ==> spec_char_from_lookup(finnish_table(), k, true, false) == Some(
            key_letter(k).unwrap().1,
        ),
        key_digit(k) is Some ==> spec_char_from_lookup(finnish_table(), k, false, false) == key_digit(k),
{
}

/// The scan codes of set 1: the keys of the standard block are numbered
/// from `0x01` (Escape) to `0x58` (F12) row by row, and the extended keys
/// are `0xE0` followed by one byte. Decoding a key's code gives the key back.
pub proof fn lemma_set1_codes()
    ensures
        KeyCode::Escape.spec_code() == 0x01 && KeyCode::Key1.spec_code() == 0x02 && KeyCode::Key2.spec_code() == 0x03 && KeyCode::Key3.spec_code() == 0x04,
        KeyCode::Key4.spec_code() == 0x05 && KeyCode::Key5.spec_code() == 0x06 && KeyCode::Key6.spec_code() == 0x07 && KeyCode::Key7.spec_code() == 0x08,
        KeyCode::Key8.spec_code() == 0x09 && KeyCode::Key9.spec_code() == 0x0A && KeyCode::Key0.spec_code() == 0x0B && KeyCode::Minus.spec_code() == 0x0C,
        KeyCode::Equals.spec_code() == 0x0D && KeyCode::Backspace.spec_code() == 0x0E && KeyCode::Tab.spec_code() == 0x0F && KeyCode::Q.spec_code() == 0x10,
        KeyCode::W.spec_code() == 0x11 && KeyCode::E.spec_code() == 0x12 && KeyCode::R.spec_code() == 0x13 && KeyCode::T.spec_code() == 0x14,
        KeyCode::Y.spec_code() == 0x15 && KeyCode::U.spec_code() == 0x16 && KeyCode::I.spec_code() == 0x17 && KeyCode::O.spec_code() == 0x18,
        KeyCode::P.spec_code() == 0x19 && KeyCode::LeftBracket.spec_code() == 0x1A && KeyCode::RightBracket.spec_code() == 0x1B && KeyCode::Enter.spec_code() == 0x1C,
        KeyCode::LeftControl.spec_code() == 0x1D && KeyCode::A.spec_code() == 0x1E && KeyCode::S.spec_code() == 0x1F && KeyCode::D.spec_code() == 0x20,
        KeyCode::F.spec_code() == 0x21 && KeyCode::G.spec_code() == 0x22 && KeyCode::H.spec_code() == 0x23 && KeyCode::J.spec_code() == 0x24,
        KeyCode::K.spec_code() == 0x25 && KeyCode::L.spec_code() == 0x26 && KeyCode::Semicolon.spec_code() == 0x27 && KeyCode::Quote.spec_code() == 0x28,
        KeyCode::Backtick.spec_code() == 0x29 && KeyCode::LeftShift.spec_code() == 0x2A && KeyCode::Backslash.spec_code() == 0x2B && KeyCode::Z.spec_code() == 0x2C,
        KeyCode::X.spec_code() == 0x2D && KeyCode::C.spec_code() == 0x2E && KeyCode::V.spec_code() == 0x2F && KeyCode::B.spec_code() == 0x30,
        KeyCode::N.spec_code() == 0x31 && KeyCode::M.spec_code() == 0x32 && KeyCode::Comma.spec_code() == 0x33 && KeyCode::Dot.spec_code() == 0x34,
        KeyCode::Slash.spec_code() == 0x35 && KeyCode::RightShift.spec_code() == 0x36 && KeyCode::KeypadStar.spec_code() == 0x37 && KeyCode::LeftAlt.spec_code() == 0x38,
        KeyCode::Space.spec_code() == 0x39 && KeyCode::CapsLock.spec_code() == 0x3A && KeyCode::F1.spec_code() == 0x3B && KeyCode::F2.spec_code() == 0x3C,
        KeyCode::F3.spec_code() == 0x3D && KeyCode::F4.spec_code() == 0x3E && KeyCode::F5.spec_code() == 0x3F && KeyCode::F6.spec_code() == 0x40,
        KeyCode::F7.spec_code() == 0x41 && KeyCode::F8.spec_code() == 0x42 && KeyCode::F9.spec_code() == 0x43 && KeyCode::F10.spec_code() == 0x44,
        KeyCode::NumLock.spec_code() == 0x45 && KeyCode::ScrollLock.spec_code() == 0x46 && KeyCode::Keypad7.spec_code() == 0x47 && KeyCode::Keypad8.spec_code() == 0x48,
        KeyCode::Keypad9.spec_code() == 0x49 && KeyCode::KeypadMinus.spec_code() == 0x4A && KeyCode::Keypad4.spec_code() == 0x4B && KeyCode::Keypad5.spec_code() == 0x4C,
        KeyCode::Keypad6.spec_code() == 0x4D && KeyCode::KeypadPlus.spec_code() == 0x4E && KeyCode::Keypad1.spec_code() == 0x4F && KeyCode::Keypad2.spec_code() == 0x50,
        KeyCode::Keypad3.spec_code() == 0x51 && KeyCode::Keypad0.spec_code() == 0x52 && KeyCode::KeypadDot.spec_code() == 0x53 && KeyCode::SysRq.spec_code() == 0x54,
        KeyCode::Fn.spec_code() == 0x55 && KeyCode::ISO.spec_code() == 0x56 && KeyCode::F11.spec_code() == 0x57 && KeyCode::F12.spec_code() == 0x58,
        KeyCode::KeypadEnter.spec_code() == 0xE01C && KeyCode::RightControl.spec_code() == 0xE01D && KeyCode::KeypadSlash.spec_code() == 0xE035 && KeyCode::RightAlt.spec_code() == 0xE038,
        KeyCode::Home.spec_code() == 0xE047 && KeyCode::CursorUp.spec_code() == 0xE048 && KeyCode::PageUp.spec_code() == 0xE049 && KeyCode::CursorLeft.spec_code() == 0xE04B,
        KeyCode::CursorRight.spec_code() == 0xE04D && KeyCode::End.spec_code() == 0xE04F && KeyCode::CursorDown.spec_code() == 0xE050 && KeyCode::PageDown.spec_code() == 0xE051,
        KeyCode::Insert.spec_code() == 0xE052 && KeyCode::Delete.spec_code() == 0xE053 && KeyCode::LeftGUI.spec_code() == 0xE05B && KeyCode::RightGUI.spec_code() == 0xE05C,
        KeyCode::Apps.spec_code() == 0xE05D,
        forall|k: KeyCode| #[trigger] spec_from_u16(k.spec_code()) == Some(k),
{
    assert forall|k: KeyCode| #[trigger] spec_from_u16(k.spec_code()) == Some(k) by {
        lemma_from_u16_roundtrip(k);
    }
}

/// The Finnish layout key by key: the characters of each key of the standard
/// block without modifier, with shift and with AltGr (`'\0'` where the key
/// gives none).
pub open spec fn finnish_key_chars(k: KeyCode) -> KeyChars {
    match k {
        KeyCode::Key1 => KeyChars { none: '1', shift: '!', alt_gr: '\0' },
        KeyCode::Key2 => KeyChars { none: '2', shift: '"', alt_gr: '@' },
        KeyCode::Key3 => KeyChars { none: '3', shift: '#', alt_gr: '\u{a3}' },
        KeyCode::Key4 => KeyChars { none: '4', shift: '\u{a4}', alt_gr: '$' },
        KeyCode::Key5 => KeyChars { none: '5', shift: '%', alt_gr: '\u{20ac}' },
        KeyCode::Key6 => KeyChars { none: '6', shift: '&', alt_gr: '{' },
        KeyCode::Key7 => KeyChars { none: '7', shift: '/', alt_gr: '[' },
        KeyCode::Key8 => KeyChars { none: '8', shift: '(', alt_gr: ']' },
        KeyCode::Key9 => KeyChars { none: '9', shift: ')', alt_gr: '}' },
        KeyCode::Key0 => KeyChars { none: '0', shift: '=', alt_gr: '\\' },
        KeyCode::Minus => KeyChars { none: '+', shift: '?', alt_gr: '`' },
        KeyCode::Equals => KeyChars { none: '\u{b4}', shift: '`', alt_gr: '\0' },
        KeyCode::Backspace => KeyChars { none: '\u{8}', shift: '\u{8}', alt_gr: '\u{8}' },
        KeyCode::Tab => KeyChars { none: '\u{9}', shift: '\u{9}', alt_gr: '\u{9}' },
        KeyCode::Q => KeyChars { none: 'q', shift: 'Q', alt_gr: '\0' },
        KeyCode::W => KeyChars { none: 'w', shift: 'W', alt_gr: '\0' },
        KeyCode::E => KeyChars { none: 'e', shift: 'E', alt_gr: '\u{20ac}' },
        KeyCode::R => KeyChars { none: 'r', shift: 'R', alt_gr: '\0' },
        KeyCode::T => KeyChars { none: 't', shift: 'T', alt_gr: '\0' },
        KeyCode::Y => KeyChars { none: 'y', shift: 'Y', alt_gr: '\0' },
        KeyCode::U => KeyChars { none: 'u', shift: 'U', alt_gr: '\0' },
        KeyCode::I => KeyChars { none: 'i', shift: 'I', alt_gr: '\0' },
        KeyCode::O => KeyChars { none: 'o', shift: 'O', alt_gr: '\0' },
        KeyCode::P => KeyChars { none: 'p', shift: 'P', alt_gr: '\0' },
        KeyCode::LeftBracket => KeyChars { none: '\u{e5}', shift: '\u{c5}', alt_gr: '\0' },
        KeyCode::RightBracket => KeyChars { none: '\u{a8}', shift: '^', alt_gr: '~' },
        KeyCode::Enter => KeyChars { none: '\u{a}', shift: '\u{a}', alt_gr: '\0' },
        KeyCode::A => KeyChars { none: 'a', shift: 'A', alt_gr: '\0' },
        KeyCode::S => KeyChars { none: 's', shift: 'S', alt_gr: '\0' },
        KeyCode::D => KeyChars { none: 'd', shift: 'D', alt_gr: '\0' },
        KeyCode::F => KeyChars { none: 'f', shift: 'F', alt_gr: '\0' },
        KeyCode::G => KeyChars { none: 'g', shift: 'G', alt_gr: '\0' },
        KeyCode::H => KeyChars { none: 'h', shift: 'H', alt_gr: '\0' },
        KeyCode::J => KeyChars { none: 'j', shift: 'J', alt_gr: '\0' },
        KeyCode::K => KeyChars { none: 'k', shift: 'K', alt_gr: '\0' },
        KeyCode::L => KeyChars { none: 'l', shift: 'L', alt_gr: '\0' },
        KeyCode::Semicolon => KeyChars { none: '\u{f6}', shift: '\u{d6}', alt_gr: '\0' },
        KeyCode::Quote => KeyChars { none: '\u{e4}', shift: '\u{c4}', alt_gr: '\0' },
        KeyCode::Backtick => KeyChars { none: '\u{a7}', shift: '\u{bd}', alt_gr: '\0' },
        KeyCode::Backslash => KeyChars { none: '\'', shift: '*', alt_gr: '\0' },
        KeyCode::Z => KeyChars { none: 'z', shift: 'Z', alt_gr: '\0' },
        KeyCode::X => KeyChars { none: 'x', shift: 'X', alt_gr: '\0' },
        KeyCode::C => KeyChars { none: 'c', shift: 'C', alt_gr: '\0' },
        KeyCode::V => KeyChars { none: 'v', shift: 'V', alt_gr: '\0' },
        KeyCode::B => KeyChars { none: 'b', shift: 'B', alt_gr: '\0' },
        KeyCode::N => KeyChars { none: 'n', shift: 'N', alt_gr: '\0' },
        KeyCode::M => KeyChars { none: 'm', shift: 'M', alt_gr: '\0' },
        KeyCode::Comma => KeyChars { none: ',', shift: ';', alt_gr: '\0' },
        KeyCode::Dot => KeyChars { none: '.', shift: ':', alt_gr: '\0' },
        KeyCode::Slash => KeyChars { none: '-', shift: '_', alt_gr: '\0' },
        KeyCode::Space => KeyChars { none: ' ', shift: ' ', alt_gr: '\0' },
        KeyCode::ISO => KeyChars { none: '<', shift: '>', alt_gr: '|' },
        _ => KeyChars { none: '\0', shift: '\0', alt_gr: '\0' },
    }
}

/// The character `c` as typed: nothing for `'\0'`.
pub open spec fn typed(c: char) -> Option<char> {
    if c == '\0' {
        None
    } else {
        Some(c)
    }
}

/// Every key of the standard block types on the Finnish layout the
/// characters of its key: the unmodified one without modifier, the shifted
/// one with shift alone, and the AltGr one whenever AltGr is held.
pub proof fn lemma_finnish_layout(k: KeyCode, shift: bool)
    requires
        k.spec_code() < 0x100,
    ensures
        spec_char_from_lookup(finnish_table(), k, false, false) == typed(finnish_key_chars(k).none),
        spec_char_from_lookup(finnish_table(), k, true, false) == typed(finnish_key_chars(k).shift),
        spec_char_from_lookup(finnish_table(), k, shift, true) == typed(finnish_key_chars(k).alt_gr),
{
}

} // verus!
