use kernel::console::{KeyEventAction, Modifiers};
use kernel::scancode::{finnish_lookup, get_finnish_char, KeyCode};

#[test]
fn decodes_standard_and_extended_codes() {
    assert_eq!(KeyCode::from_u16(0x1E), Some(KeyCode::A));
    assert_eq!(KeyCode::from_u16(0x01), Some(KeyCode::Escape));
    assert_eq!(KeyCode::from_u16(0x58), Some(KeyCode::F12));
    assert_eq!(KeyCode::from_u16(0xE038), Some(KeyCode::RightAlt));
    assert_eq!(KeyCode::from_u16(0xE05D), Some(KeyCode::Apps));
    assert_eq!(KeyCode::from_u16(0x00), None);
    assert_eq!(KeyCode::from_u16(0x59), None);
    assert_eq!(KeyCode::from_u16(0xE001), None);
}

#[test]
fn release_bit_is_ignored_when_decoding() {
    assert_eq!(KeyCode::from_u16(0x9E), Some(KeyCode::A));
    assert!(KeyCode::is_release(0x9E));
    assert!(!KeyCode::is_release(0x1E));
    assert_eq!(KeyCode::from_u16(0xE0B8), Some(KeyCode::RightAlt));
    assert!(KeyCode::is_release(0xE0B8));
}

#[test]
fn codes_round_trip() {
    for k in [KeyCode::Q, KeyCode::Space, KeyCode::KeypadEnter, KeyCode::Delete, KeyCode::ISO] {
        let c = k.code();
        assert_eq!(KeyCode::from_u16(c), Some(k));
        assert_eq!(KeyCode::from_u16(c | 0x80), Some(k));
    }
}

#[test]
fn finnish_characters() {
    assert_eq!(get_finnish_char(KeyCode::A, false, false), Some('a'));
    assert_eq!(get_finnish_char(KeyCode::A, true, false), Some('A'));
    assert_eq!(get_finnish_char(KeyCode::Key2, false, true), Some('@'));
    assert_eq!(get_finnish_char(KeyCode::Key2, true, true), Some('@'));
    assert_eq!(get_finnish_char(KeyCode::Key1, false, true), None);
    assert_eq!(get_finnish_char(KeyCode::Semicolon, false, false), Some('\u{f6}'));
    assert_eq!(get_finnish_char(KeyCode::Key5, false, true), Some('\u{20ac}'));
    assert_eq!(get_finnish_char(KeyCode::ISO, true, false), Some('>'));
    assert_eq!(get_finnish_char(KeyCode::F1, false, false), None);
    assert_eq!(get_finnish_char(KeyCode::Enter, false, false), Some('\n'));
    // An extended key reads the slot of its low byte.
    assert_eq!(get_finnish_char(KeyCode::KeypadSlash, false, false), Some('-'));
}

#[test]
fn lookup_table_shape() {
    let t = finnish_lookup();
    assert_eq!(t.len(), 128);
    assert_eq!(t[0x10].none, 'q');
    assert_eq!(t[0x0B].alt_gr, '\\');
    assert_eq!(t[0x7F].none, '\0');
}

#[test]
fn console_tracks_modifiers() {
    let mut m = Modifiers::new();
    assert_eq!(m.keyboard_event(0x1E), KeyEventAction::Input('a'));
    assert_eq!(m.keyboard_event(0x2A), KeyEventAction::Nothing);
    assert!(m.l_shift);
    assert_eq!(m.keyboard_event(0x1E), KeyEventAction::Input('A'));
    assert_eq!(m.keyboard_event(0x9E), KeyEventAction::Nothing);
    assert_eq!(m.keyboard_event(0xAA), KeyEventAction::Nothing);
    assert!(!m.l_shift);
    assert_eq!(m.keyboard_event(0xE038), KeyEventAction::Nothing);
    assert!(m.r_alt);
    assert_eq!(m.keyboard_event(0x03), KeyEventAction::Input('@'));
    assert_eq!(m.keyboard_event(0xE0B8), KeyEventAction::Nothing);
    assert!(!m.r_alt);
    assert_eq!(m.keyboard_event(0x3B), KeyEventAction::Nothing);
    assert_eq!(m.keyboard_event(0x00), KeyEventAction::UnknownKey(0));
    assert_eq!(m.keyboard_event(0x1D), KeyEventAction::Nothing);
    assert!(m.l_ctrl);
}
