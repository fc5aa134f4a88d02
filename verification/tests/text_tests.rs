use kernel::text::{console_units, dec_digits, hex_digits, push_utf16, uefi_string, utf16_units};

fn units(s: &str) -> Vec<u16> {
    s.encode_utf16().collect()
}

#[test]
fn hex_of_zero_is_single_zero() {
    assert_eq!(hex_digits(0), units("0"));
}

#[test]
fn hex_digits_are_upper_case_without_leading_zeros() {
    assert_eq!(hex_digits(0xABC), units("ABC"));
    assert_eq!(hex_digits(255), units("FF"));
    assert_eq!(hex_digits(0x1000), units("1000"));
    assert_eq!(hex_digits(0xFFFF_FFFF_8000_0000), units("FFFFFFFF80000000"));
}

#[test]
fn hex_of_largest_number_has_thirty_two_digits() {
    assert_eq!(hex_digits(u128::MAX), units(&"F".repeat(32)));
}

#[test]
fn dec_of_zero_is_single_zero() {
    assert_eq!(dec_digits(0), units("0"));
}

#[test]
fn dec_digits_without_leading_zeros() {
    assert_eq!(dec_digits(1234), units("1234"));
    assert_eq!(dec_digits(7), units("7"));
    assert_eq!(dec_digits(1000), units("1000"));
    assert_eq!(dec_digits(u64::MAX as u128), units("18446744073709551615"));
}

#[test]
fn dec_prints_only_the_lower_thirty_eight_places() {
    let limit: u128 = 10u128.pow(38);
    assert_eq!(dec_digits(limit), Vec::<u16>::new());
    assert_eq!(dec_digits(limit + 5), units("5"));
    assert_eq!(dec_digits(u128::MAX), units("40282366920938463463374607431768211455"));
}

#[test]
fn utf16_of_ascii_and_astral_characters() {
    assert_eq!(utf16_units("Hi"), vec![0x48, 0x69]);
    assert_eq!(utf16_units("\u{1F600}"), vec![0xD83D, 0xDE00]);
    assert_eq!(utf16_units("é"), vec![0xE9]);
    assert_eq!(utf16_units(""), Vec::<u16>::new());
}

#[test]
fn push_utf16_appends() {
    let mut out = vec![1u16];
    push_utf16(&mut out, 'A');
    push_utf16(&mut out, '\u{10000}');
    assert_eq!(out, vec![1, 0x41, 0xD800, 0xDC00]);
}

#[test]
fn uefi_string_is_null_terminated() {
    assert_eq!(uefi_string("Hi"), vec![0x48, 0x69, 0]);
    assert_eq!(uefi_string(""), vec![0]);
}

#[test]
fn console_units_add_carriage_return_after_line_feed() {
    assert_eq!(console_units("a\nb"), vec![0x61, 0x0A, 0x0D, 0x62]);
    assert_eq!(console_units("\n\n"), vec![0x0A, 0x0D, 0x0A, 0x0D]);
    assert_eq!(console_units("xyz"), units("xyz"));
}
