use kernel::gdt::{gdt_descriptor_size, initial_gdt, Entry};

#[test]
fn entry_fields_read_back() {
    let e = Entry::new(0x1234_5678, 0xABCDE, 0x9A, 0xC);
    assert_eq!(e.get_base(), 0x1234_5678);
    assert_eq!(e.get_limit(), 0xABCDE);
    assert_eq!(e.get_access_byte(), 0x9A);
    assert_eq!(e.get_flags(), 0xC);
    assert!(e.is_present());
}

#[test]
fn kernel_code_segment_word() {
    let e = Entry::new(0, !0, 0b10011010, 0b1010);
    assert_eq!(e.0, 0x00af_9a00_0000_ffff);
    let d = Entry::new(0, !0, 0b10010010, 0b1100);
    assert_eq!(d.0, 0x00cf_9200_0000_ffff);
}

#[test]
fn limit_is_truncated_to_twenty_bits() {
    let mut e = Entry(0);
    e.set_limit(0x0123_4567);
    assert_eq!(e.get_limit(), 0x34567);
    assert_eq!(e.get_base(), 0);
}

#[test]
fn flags_keep_four_bits() {
    let mut e = Entry(0);
    e.set_flags(0xFF);
    assert_eq!(e.get_flags(), 0xF);
    assert_eq!(e.0, 0x00f0_0000_0000_0000);
}

#[test]
fn setters_leave_other_fields() {
    let mut e = Entry::new(0xDEAD_BEEF, 0x12345, 0x92, 0x4);
    e.set_base(0x0102_0304);
    assert_eq!(e.get_base(), 0x0102_0304);
    assert_eq!(e.get_limit(), 0x12345);
    assert_eq!(e.get_access_byte(), 0x92);
    assert_eq!(e.get_flags(), 0x4);
    e.set_access_byte(0x12);
    assert_eq!(e.get_base(), 0x0102_0304);
    assert_eq!(e.get_limit(), 0x12345);
    assert_eq!(e.get_access_byte(), 0x12);
    assert!(!e.is_present());
}

#[test]
fn present_bit_is_bit_seven_of_access() {
    let mut e = Entry::new(0, 0, 0x12, 0);
    assert!(!e.is_present());
    e.set_present(true);
    assert!(e.is_present());
    assert_eq!(e.get_access_byte(), 0x92);
    e.set_present(false);
    assert!(!e.is_present());
    assert_eq!(e.get_access_byte(), 0x12);
    assert_eq!(e.0 & (1 << 47), 0);
}

#[test]
fn long_mode_entry_splits_base() {
    let [low, high] = Entry::new64(0x1122_3344_5566_7788, 0x67, 0x89, 0x0);
    assert_eq!(low.get_base(), 0x5566_7788);
    assert_eq!(low.get_limit(), 0x67);
    assert_eq!(low.get_access_byte(), 0x89);
    assert_eq!(high.0, 0x1122_3344);
}

#[test]
fn boot_gdt_layout() {
    let gdt = initial_gdt();
    assert_eq!(gdt.len(), 11);
    assert_eq!(gdt[0].0, 0);
    assert_eq!(gdt[1].0, 0x00af_9a00_0000_ffff);
    assert_eq!(gdt[2].0, 0x00cf_9200_0000_ffff);
    assert_eq!(gdt[3].get_access_byte(), 0b11111010);
    assert_eq!(gdt[4].get_access_byte(), 0b11110010);
    assert_eq!(gdt[5].get_flags(), 0b1010);
    for e in &gdt[6..] {
        assert_eq!(e.0, 0);
    }
    assert_eq!(gdt_descriptor_size(), 87);
}
