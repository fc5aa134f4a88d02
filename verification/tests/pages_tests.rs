use kernel::pages::{
    root_frame, table_indices, MapResult, PageTable, PageTableBits, PageTableEntry,
    PageTableMemory, ADDRESS_MASK,
};

fn empty_entries() -> [PageTableEntry; 512] {
    [PageTableEntry { entry: 0 }; 512]
}

#[test]
fn entry_keeps_frame_address_and_is_present() {
    let e = PageTableEntry::new(0x1234_5678);
    assert_eq!(e.entry, 0x1234_5001);
    assert!(e.is_present());
    assert_eq!(e.address(), 0x1234_5000);
    let w = e.with(PageTableBits::Write).with(PageTableBits::UserAccessible);
    assert_eq!(w.entry, 0x1234_5007);
    assert_eq!(w.address(), 0x1234_5000);
    assert!(!PageTableEntry { entry: 0x5000 }.is_present());
}

#[test]
fn entry_drops_bits_outside_the_address_field() {
    let e = PageTableEntry::new(0xFFFF_FFFF_FFFF_FFFF);
    assert_eq!(e.entry, ADDRESS_MASK | 1);
    assert_eq!(e.address(), ADDRESS_MASK);
}

#[test]
fn attribute_bits() {
    assert_eq!(PageTableBits::Present.bits(), 1);
    assert_eq!(PageTableBits::Write.bits(), 2);
    assert_eq!(PageTableBits::Global.bits(), 256);
    assert_eq!(PageTableBits::Address.bits(), 0x000f_ffff_ffff_f000);
    assert_eq!(PageTableBits::ProtectionKey.bits(), 0x7800_0000_0000_0000);
    assert_eq!(PageTableBits::ExecuteDisable.bits(), 0x8000_0000_0000_0000);
}

#[test]
fn indices_of_virtual_addresses() {
    assert_eq!(table_indices(0xffff_8000_0000_0000), [256, 0, 0, 0]);
    assert_eq!(table_indices(0xffff_ffff_8000_0000), [511, 510, 0, 0]);
    assert_eq!(table_indices(0x40_0000), [0, 0, 2, 0]);
    assert_eq!(table_indices(0x7f_ffff_f000), [0, 511, 511, 511]);
}

#[test]
fn root_frame_clears_the_offset_within_the_page() {
    assert_eq!(root_frame(0x12345), 0x12000);
    assert_eq!(root_frame(0x1000), 0x1000);
    assert_eq!(root_frame(0xfff), 0);
}

#[test]
fn table_entries_are_replaced_one_at_a_time() {
    let mut t = PageTable::zeroed();
    t.set_entry(3, PageTableEntry::new(0x8000));
    assert_eq!(t.entry(3).entry, 0x8001);
    assert_eq!(t.entry(2).entry, 0);
    let copy = PageTable::from_entries(t.entries());
    assert_eq!(copy.entry(3).entry, 0x8001);
}

#[test]
fn new_root_maps_itself_in_its_last_entry() {
    let mut current = empty_entries();
    current[256] = PageTableEntry::new(0x7000);
    let mem = PageTableMemory::init_paging(0x1000, current);
    assert!(mem.contains(0x1000));
    assert!(!mem.contains(0x7000));
    let root = mem.table(0x1000);
    assert_eq!(root.entry(511).entry, 0x1007);
    assert_eq!(root.entry(256).entry, 0x7001);
}

#[test]
fn mapping_asks_for_missing_tables_then_maps() {
    let mut mem = PageTableMemory::init_paging(0x1000, empty_entries());
    let va = 0x40_0000;
    assert_eq!(mem.map_page(0x1000, 0x5123, va), MapResult::NeedTable { parent: 0x1000, index: 0 });
    mem.install_table(0x1000, 0, 0x2000);
    assert_eq!(mem.table(0x1000).entry(0).entry, 0x2007);
    assert_eq!(mem.map_page(0x1000, 0x5123, va), MapResult::NeedTable { parent: 0x2000, index: 0 });
    mem.install_table(0x2000, 0, 0x3000);
    assert_eq!(mem.map_page(0x1000, 0x5123, va), MapResult::NeedTable { parent: 0x3000, index: 2 });
    mem.install_table(0x3000, 2, 0x4000);
    assert_eq!(mem.map_page(0x1000, 0x5123, va), MapResult::Mapped);
    assert_eq!(mem.table(0x4000).entry(0).entry, 0x5007);
    // A second page in the same last-level table needs no new table.
    assert_eq!(mem.map_page(0x1000, 0x9000, va + 0x1000), MapResult::Mapped);
    assert_eq!(mem.table(0x4000).entry(1).entry, 0x9007);
    assert_eq!(mem.table(0x4000).entry(0).entry, 0x5007);
}

#[test]
fn mapping_stops_at_a_table_that_is_not_known() {
    let mut current = empty_entries();
    current[0] = PageTableEntry::new(0x9000);
    let mut mem = PageTableMemory::init_paging(0x1000, current);
    assert_eq!(mem.map_page(0x1000, 0x5000, 0x1000), MapResult::UnknownTable { frame: 0x9000 });
    mem.insert_table(0x9000, PageTable::zeroed());
    assert!(mem.contains(0x9000));
    assert_eq!(mem.map_page(0x1000, 0x5000, 0x1000), MapResult::NeedTable { parent: 0x9000, index: 0 });
}
