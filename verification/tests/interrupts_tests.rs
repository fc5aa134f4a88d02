use kernel::gdt::KERNEL_CS;
use kernel::interrupts::{idt_limit, IdtEntry, INTERRUPT_GATE};

#[test]
fn new_entry_is_all_zero() {
    let e = IdtEntry::new();
    assert_eq!(
        (e.offset_low, e.selector, e.ist, e.type_attr, e.offset_mid, e.offset_high, e.reserved),
        (0, 0, 0, 0, 0, 0, 0)
    );
}

#[test]
fn handler_address_is_split_in_three() {
    let mut e = IdtEntry::new();
    e.set_handler(0x1234_5678_9abc_def0);
    assert_eq!(e.offset_low, 0xdef0);
    assert_eq!(e.offset_mid, 0x9abc);
    assert_eq!(e.offset_high, 0x1234_5678);
    assert_eq!(e.selector as usize, KERNEL_CS);
    assert_eq!(e.type_attr, INTERRUPT_GATE);
    assert_eq!(e.type_attr, 0x8E);
    assert_eq!(e.ist, 0);
    assert_eq!(e.reserved, 0);
    let back = e.offset_low as u64 | (e.offset_mid as u64) << 16 | (e.offset_high as u64) << 32;
    assert_eq!(back, 0x1234_5678_9abc_def0);
}

#[test]
fn idt_limit_covers_all_entries() {
    assert_eq!(idt_limit(), 4095);
}
