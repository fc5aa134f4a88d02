//! Handling of keyboard events by the kernel console: modifier keys are
//! tracked, other key presses are turned into characters of the Finnish
//! layout.

use vstd::prelude::*;
use crate::scancode::{
    KeyCode, get_finnish_char, key_letter, lemma_finnish_letters_and_digits, lemma_from_u16_roundtrip,
    spec_char_from_lookup, spec_from_u16, finnish_table,
};

verus! {

/// The state of the modifier keys.
#[derive(Clone, Copy, Debug, PartialEq, Eq, Structural)]
pub struct Modifiers {
    pub l_shift: bool,
    pub r_shift: bool,
    pub l_ctrl: bool,
    pub r_ctrl: bool,
    pub l_alt: bool,
    pub r_alt: bool,
}

/// What the console does with a keyboard event.
#[derive(Clone, Copy, Debug, PartialEq, Eq, Structural)]
pub enum KeyEventAction {
    /// Nothing to print.
    Nothing,
    /// Print this character.
    Input(char),
    /// The event is no known key; the console stops with an error.
    UnknownKey(u16),
}

/// The state after a keyboard event and the action it asks for.
pub open spec fn spec_keyboard_event(m: Modifiers, event: u16) -> (Modifiers, KeyEventAction) {
    let pressed = event & 0x80 == 0;
    match spec_from_u16(event) {
        None => (m, KeyEventAction::UnknownKey(event)),
        Some(KeyCode::LeftShift) => (Modifiers { l_shift: pressed, ..m }, KeyEventAction::Nothing),
        Some(KeyCode::RightShift) => (Modifiers { r_shift: pressed, ..m }, KeyEventAction::Nothing),
        Some(KeyCode::LeftControl) => (Modifiers { l_ctrl: pressed, ..m }, KeyEventAction::Nothing),
        Some(KeyCode::RightControl) => (Modifiers { r_ctrl: pressed, ..m }, KeyEventAction::Nothing),
        Some(KeyCode::LeftAlt) => (Modifiers { l_alt: pressed, ..m }, KeyEventAction::Nothing),
        Some(KeyCode::RightAlt) => (Modifiers { r_alt: pressed, ..m }, KeyEventAction::Nothing),
        Some(k) => {
            if !pressed {
                (m, KeyEventAction::Nothing)
            } else {
                match spec_char_from_lookup(finnish_table(), k, m.l_shift || m.r_shift, m.r_alt) {
                    Some(c) => (m, KeyEventAction::Input(c)),
                    None => (m, KeyEventAction::Nothing),
                }
            }
        },
    }
}

impl Modifiers {
    /// No modifier key held.
    pub fn new() -> (r: Self)
        ensures
            !r.l_shift && !r.r_shift && !r.l_ctrl && !r.r_ctrl && !r.l_alt && !r.r_alt,
    {
        Modifiers {
            l_shift: false,
            r_shift: false,
            l_ctrl: false,
            r_ctrl: false,
            l_alt: false,
            r_alt: false,
        }
    }

    /// Handles one keyboard event: a modifier key press or release updates the
    /// modifier state; another key press gives the character it stands for
    /// with the current shift and AltGr state; releases of other keys do
    /// nothing; an unknown event is reported.
    pub fn keyboard_event(&mut self, event: u16) -> (r: KeyEventAction)
        ensures
            (*final(self), r) == spec_keyboard_event(*old(self), event),
    {
        let keycode = KeyCode::from_u16(event);
        let is_release = KeyCode::is_release(event);
        match keycode {
            Some(KeyCode::LeftShift) => {
                self.l_shift = !is_release;
                KeyEventAction::Nothing
            },
            Some(KeyCode::RightShift) => {
                self.r_shift = !is_release;
                KeyEventAction::Nothing
            },
            Some(KeyCode::LeftControl) => {
                self.l_ctrl = !is_release;
                KeyEventAction::Nothing
            },
            Some(KeyCode::RightControl) => {
                self.r_ctrl = !is_release;
                KeyEventAction::Nothing
            },
            Some(KeyCode::LeftAlt) => {
                self.l_alt = !is_release;
                KeyEventAction::Nothing
            },
            Some(KeyCode::RightAlt) => {
                self.r_alt = !is_release;
                KeyEventAction::Nothing
            },
            Some(keycode) => {
                if is_release {
                    return KeyEventAction::Nothing;
                }
                let shift = self.l_shift || self.r_shift;
                let altgr = self.r_alt;
                match get_finnish_char(keycode, shift, altgr) {
                    Some(ch) => KeyEventAction::Input(ch),
                    None => KeyEventAction::Nothing,
                }
            },
            None => KeyEventAction::UnknownKey(event),
        }
    }
}

/// Either shift key shifts: two modifier states that agree on the other
/// modifiers and on whether some shift key is held answer every event with
/// the same action.
pub proof fn lemma_either_shift(m1: Modifiers, m2: Modifiers, event: u16)
    requires
        (m1.l_shift || m1.r_shift) == (m2.l_shift || m2.r_shift),
        m1.l_ctrl == m2.l_ctrl,
        m1.r_ctrl == m2.r_ctrl,
        m1.l_alt == m2.l_alt,
        m1.r_alt == m2.r_alt,
    ensures
        spec_keyboard_event(m1, event).1 == spec_keyboard_event(m2, event).1,
{
}

/// Pressing a letter key without AltGr types its letter: in upper case while
/// either shift key is held, in lower case otherwise; the modifier state is
/// unchanged.
pub proof fn lemma_letter_press(m: Modifiers, k: KeyCode)
    requires
        key_letter(k) is Some,
        !m.r_alt,
    ensures
        spec_keyboard_event(m, k.spec_code()) == (
            m,
            KeyEventAction::Input(
                if m.l_shift || m.r_shift {
                    key_letter(k).unwrap().1
                } else {
                    key_letter(k).unwrap().0
                },
            ),
        ),
{
    lemma_from_u16_roundtrip(k);
    lemma_finnish_letters_and_digits(k);
}

/// The modifier keys are tracked one by one: a press of left or right shift,
/// control or alt (the latter two of the right side with the `0xE0` prefix)
/// sets that key's flag, its release (the same code with bit `0x80`) clears
/// it, the other flags stay, and nothing is typed.
pub proof fn lemma_modifier_keys(m: Modifiers)
    ensures
        spec_keyboard_event(m, 0x2A) == (Modifiers { l_shift: true, ..m }, KeyEventAction::Nothing),
        spec_keyboard_event(m, 0xAA) == (Modifiers { l_shift: false, ..m }, KeyEventAction::Nothing),
        spec_keyboard_event(m, 0x36) == (Modifiers { r_shift: true, ..m }, KeyEventAction::Nothing),
        spec_keyboard_event(m, 0xB6) == (Modifiers { r_shift: false, ..m }, KeyEventAction::Nothing),
        spec_keyboard_event(m, 0x1D) == (Modifiers { l_ctrl: true, ..m }, KeyEventAction::Nothing),
        spec_keyboard_event(m, 0x9D) == (Modifiers { l_ctrl: false, ..m }, KeyEventAction::Nothing),
        spec_keyboard_event(m, 0xE01D) == (Modifiers { r_ctrl: true, ..m }, KeyEventAction::Nothing),
        spec_keyboard_event(m, 0xE09D) == (Modifiers { r_ctrl: false, ..m }, KeyEventAction::Nothing),
        spec_keyboard_event(m, 0x38) == (Modifiers { l_alt: true, ..m }, KeyEventAction::Nothing),
        spec_keyboard_event(m, 0xB8) == (Modifiers { l_alt: false, ..m }, KeyEventAction::Nothing),
        spec_keyboard_event(m, 0xE038) == (Modifiers { r_alt: true, ..m }, KeyEventAction::Nothing),
        spec_keyboard_event(m, 0xE0B8) == (Modifiers { r_alt: false, ..m }, KeyEventAction::Nothing),
{
    assert(0x2Au16 | 0x80u16 == 0xAAu16 && 0x36u16 | 0x80u16 == 0xB6u16 && 0x1Du16 | 0x80u16 == 0x9Du16
        && 0xE01Du16 | 0x80u16 == 0xE09Du16 && 0x38u16 | 0x80u16 == 0xB8u16 && 0xE038u16 | 0x80u16
        == 0xE0B8u16) by (bit_vector);
    lemma_from_u16_roundtrip(KeyCode::LeftShift);
    lemma_from_u16_roundtrip(KeyCode::RightShift);
    lemma_from_u16_roundtrip(KeyCode::LeftControl);
    lemma_from_u16_roundtrip(KeyCode::RightControl);
    lemma_from_u16_roundtrip(KeyCode::LeftAlt);
    lemma_from_u16_roundtrip(KeyCode::RightAlt);
}

/// Releasing a key that is no modifier key types nothing and leaves the
/// modifier state as it was.
pub proof fn lemma_key_release(m: Modifiers, k: KeyCode)
    requires
        k != KeyCode::LeftShift,
        k != KeyCode::RightShift,
        k != KeyCode::LeftControl,
        k != KeyCode::RightControl,
        k != KeyCode::LeftAlt,
        k != KeyCode::RightAlt,
    ensures
        spec_keyboard_event(m, k.spec_code() | 0x80) == (m, KeyEventAction::Nothing),
{
    lemma_from_u16_roundtrip(k);
}

} // verus!
