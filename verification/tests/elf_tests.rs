use kernel::elf::{
    read_dynamic_entry, read_rela_entries, Bits, DynamicEntryType, Elf64, ElfParseError, Endian,
    FileType, RelocationType, SectionType, SegmentType,
};

fn header() -> Vec<u8> {
    let mut b = vec![0u8; 64];
    b[0..4].copy_from_slice(&[0x7F, 0x45, 0x4C, 0x46]);
    b[4] = 2;
    b[5] = 1;
    b[6] = 1;
    b[7] = 0;
    b[16..18].copy_from_slice(&3u16.to_le_bytes());
    b[18..20].copy_from_slice(&0x3Eu16.to_le_bytes());
    b[20..24].copy_from_slice(&1u32.to_le_bytes());
    b[24..32].copy_from_slice(&0x1000u64.to_le_bytes());
    b[32..40].copy_from_slice(&0x40u64.to_le_bytes());
    b[40..48].copy_from_slice(&0x78u64.to_le_bytes());
    b[48..52].copy_from_slice(&7u32.to_le_bytes());
    b[52..54].copy_from_slice(&0x40u16.to_le_bytes());
    b[54..56].copy_from_slice(&0x38u16.to_le_bytes());
    b[56..58].copy_from_slice(&1u16.to_le_bytes());
    b[58..60].copy_from_slice(&0x40u16.to_le_bytes());
    b[60..62].copy_from_slice(&1u16.to_le_bytes());
    b[62..64].copy_from_slice(&0u16.to_le_bytes());
    b
}

fn program_header(t: u32, vaddr: u64, offset: u64, file: u64, mem: u64) -> Vec<u8> {
    let mut p = Vec::new();
    p.extend_from_slice(&t.to_le_bytes());
    p.extend_from_slice(&5u32.to_le_bytes());
    p.extend_from_slice(&offset.to_le_bytes());
    p.extend_from_slice(&vaddr.to_le_bytes());
    p.extend_from_slice(&0u64.to_le_bytes());
    p.extend_from_slice(&file.to_le_bytes());
    p.extend_from_slice(&mem.to_le_bytes());
    p.extend_from_slice(&0x1000u64.to_le_bytes());
    p
}

#[test]
fn parses_a_shared_object_header() {
    let b = header();
    let e = Elf64::new(&b).ok().unwrap();
    assert!(e.ident.bits == Bits::Bit64);
    assert!(e.ident.endian == Endian::Little);
    assert_eq!(e.f_type, FileType::SharedObject);
    assert_eq!(e.machine, 0x3E);
    assert_eq!(e.version, 1);
    assert_eq!(e.entry, 0x1000);
    assert_eq!(e.ph_offset, 0x40);
    assert_eq!(e.sh_offset, 0x78);
    assert_eq!(e.flags, 7);
    assert_eq!(e.ph_entry_count, 1);
    assert_eq!(e.sh_entry_count, 1);
}

#[test]
fn parses_a_big_endian_header() {
    let mut b = header();
    b[5] = 2;
    b[16..18].copy_from_slice(&3u16.to_be_bytes());
    b[18..20].copy_from_slice(&0x3Eu16.to_be_bytes());
    b[20..24].copy_from_slice(&1u32.to_be_bytes());
    b[24..32].copy_from_slice(&0x1234u64.to_be_bytes());
    b[32..40].copy_from_slice(&0x40u64.to_be_bytes());
    b[52..54].copy_from_slice(&0x40u16.to_be_bytes());
    b[54..56].copy_from_slice(&0x38u16.to_be_bytes());
    b[58..60].copy_from_slice(&0x40u16.to_be_bytes());
    let e = Elf64::new(&b).ok().unwrap();
    assert!(e.ident.endian == Endian::Big);
    assert_eq!(e.entry, 0x1234);
}

fn err(b: &[u8]) -> ElfParseError {
    match Elf64::new(b) {
        Ok(_) => panic!("expected an error"),
        Err(e) => e,
    }
}

#[test]
fn header_errors_in_order() {
    let mut b = header();
    b[1] = 0;
    assert_eq!(err(&b), ElfParseError::Magic([0x7F, 0, 0x4C, 0x46]));
    let mut b = header();
    b[4] = 1;
    b[6] = 9;
    assert_eq!(err(&b), ElfParseError::Bits32);
    let mut b = header();
    b[6] = 2;
    assert_eq!(err(&b), ElfParseError::Version(2));
    let mut b = header();
    b[7] = 3;
    assert_eq!(err(&b), ElfParseError::TargetOS(3));
    let mut b = header();
    b[16] = 2;
    assert_eq!(err(&b), ElfParseError::FileType(FileType::Executable));
    let mut b = header();
    b[16] = 0x20;
    assert_eq!(err(&b), ElfParseError::FileType(FileType::Unknown));
    let mut b = header();
    b[18] = 3;
    assert_eq!(err(&b), ElfParseError::Machine(3));
    let mut b = header();
    b[20] = 2;
    assert_eq!(err(&b), ElfParseError::Version(2));
    let mut b = header();
    b[32] = 0x50;
    assert_eq!(err(&b), ElfParseError::PHOffset(0x50));
    let mut b = header();
    b[52] = 0x20;
    b[54] = 0x20;
    assert_eq!(err(&b), ElfParseError::HeaderSize(0x20));
    let mut b = header();
    b[54] = 0x20;
    assert_eq!(err(&b), ElfParseError::PHSize(0x20));
    let mut b = header();
    b[58] = 0x20;
    assert_eq!(err(&b), ElfParseError::SHSize(0x20));
}

#[test]
fn reads_program_and_section_headers() {
    let mut b = header();
    b.extend(program_header(1, 0x2000, 0x100, 0x10, 0x20));
    let mut sh = vec![0u8; 64];
    sh[0..4].copy_from_slice(&9u32.to_le_bytes());
    sh[4..8].copy_from_slice(&2u32.to_le_bytes());
    sh[32..40].copy_from_slice(&0x30u64.to_le_bytes());
    b.extend(sh);
    let e = Elf64::new(&b).ok().unwrap();
    let phs = e.program_headers(&b);
    assert_eq!(phs.len(), 1);
    assert_eq!(phs[0].segment_type, SegmentType::Load);
    assert_eq!(phs[0].flags, 5);
    assert_eq!(phs[0].vaddr, 0x2000);
    assert_eq!(phs[0].offset, 0x100);
    assert_eq!(phs[0].file_size, 0x10);
    assert_eq!(phs[0].mem_size, 0x20);
    assert_eq!(phs[0].align, 0x1000);
    let shs = e.section_headers(&b);
    assert_eq!(shs.len(), 1);
    assert_eq!(shs[0].name, 9);
    assert_eq!(shs[0].section_type, SectionType::Symtab);
    assert_eq!(shs[0].size, 0x30);
}

#[test]
fn unknown_segment_types_are_kept() {
    let mut b = header();
    b.extend(program_header(0x6474_e551, 0, 0, 0, 0));
    let e = Elf64::new(&b).ok().unwrap();
    let phs = e.program_headers(&b);
    assert_eq!(phs[0].segment_type, SegmentType::Other(0x6474_e551));
}

#[test]
fn reads_relocations_and_dynamic_entries() {
    let mut b = Vec::new();
    b.extend_from_slice(&0x10u64.to_le_bytes());
    b.extend_from_slice(&8u32.to_le_bytes());
    b.extend_from_slice(&0u32.to_le_bytes());
    b.extend_from_slice(&0x4000u64.to_le_bytes());
    b.extend_from_slice(&0x18u64.to_le_bytes());
    b.extend_from_slice(&1u32.to_le_bytes());
    b.extend_from_slice(&3u32.to_le_bytes());
    b.extend_from_slice(&0u64.to_le_bytes());
    let r = read_rela_entries(&b, 0, 2);
    assert_eq!(r.len(), 2);
    assert_eq!(r[0].offset, 0x10);
    assert_eq!(r[0].relocation_type, RelocationType::RELATIVE);
    assert_eq!(r[0].addend, 0x4000);
    assert_eq!(r[1].relocation_type, RelocationType::B64);
    assert_eq!(r[1].symbol_index, 3);
    assert_eq!(r[1].relocation_type.number(), 1);

    let mut d = Vec::new();
    d.extend_from_slice(&0x6fff_fef5u64.to_le_bytes());
    d.extend_from_slice(&7u64.to_le_bytes());
    let e = read_dynamic_entry(&d, 0);
    assert_eq!(e.d_tag, DynamicEntryType::Other(0x6fff_fef5));
    assert_eq!(e.d_val, 7);
}
