use kernel::boot::{
    apply_relocation, apply_relocations, kernel_entry_address, kernel_page_bounds,
    kernel_stack_top, kernel_virtual_address, load_segment, memory_map_pages, pages_needed,
    load_kernel, scan_dynamic, select_video_mode, write_u64_le, DynamicError, DynamicInfo,
    KernelLoadError, LoadError, KERNEL_VIRTUAL_BASE,
};
use kernel::elf::{ProgramHeader, RELAEntry, RelocationType, SegmentType};

fn seg(t: SegmentType, vaddr: u64, offset: u64, file: u64, mem: u64) -> ProgramHeader {
    ProgramHeader {
        segment_type: t,
        flags: 0,
        offset,
        vaddr,
        paddr: 0,
        file_size: file,
        mem_size: mem,
        align: 0x1000,
    }
}

#[test]
fn page_counts_round_up() {
    assert_eq!(pages_needed(0), 0);
    assert_eq!(pages_needed(1), 1);
    assert_eq!(pages_needed(4096), 1);
    assert_eq!(pages_needed(4097), 2);
    assert_eq!(memory_map_pages(100), 1);
    assert_eq!(memory_map_pages(4096 - 80), 1);
    assert_eq!(memory_map_pages(4096 - 79), 2);
}

#[test]
fn kernel_pages_span_loadable_segments() {
    let hs = vec![
        seg(SegmentType::Load, 0x1000, 0, 0, 0x2000),
        seg(SegmentType::Note, 0x9000, 0, 0, 0x10),
        seg(SegmentType::Dynamic, 0x5000, 0, 0, 0x10),
    ];
    assert_eq!(kernel_page_bounds(&hs), (1, 5));
    assert_eq!(kernel_page_bounds(&[]), (usize::MAX, 0));
    let only_note = vec![seg(SegmentType::Note, 0x9000, 0, 0, 0x10)];
    assert_eq!(kernel_page_bounds(&only_note), (usize::MAX, 0));
}

#[test]
fn segment_is_copied_and_zero_filled() {
    let binary: Vec<u8> = (0u8..16).collect();
    let mut image = vec![0xAAu8; 32];
    let s = seg(SegmentType::Load, 4, 2, 3, 6);
    assert_eq!(load_segment(&mut image, &binary, &s), Ok(()));
    assert_eq!(&image[0..4], &[0xAA; 4]);
    assert_eq!(&image[4..7], &[2, 3, 4]);
    assert_eq!(&image[7..10], &[0, 0, 0]);
    assert_eq!(&image[10..], &[0xAA; 22]);
}

#[test]
fn segment_reaching_the_end_is_refused() {
    let binary: Vec<u8> = vec![1; 16];
    let mut image = vec![0u8; 8];
    let s = seg(SegmentType::Load, 4, 0, 4, 4);
    assert_eq!(load_segment(&mut image, &binary, &s), Err(LoadError::NeededPagesExceedAllocated));
    assert_eq!(image, vec![0u8; 8]);
}

fn dyn_entry(tag: u64, val: u64) -> Vec<u8> {
    let mut v = tag.to_le_bytes().to_vec();
    v.extend_from_slice(&val.to_le_bytes());
    v
}

#[test]
fn dynamic_section_gives_relocation_table() {
    let mut b = vec![0u8; 8];
    b.extend(dyn_entry(7, 0x100));
    b.extend(dyn_entry(6, 0x200));
    b.extend(dyn_entry(8, 48));
    b.extend(dyn_entry(0x6fff_fef5, 1));
    b.extend(dyn_entry(0, 0));
    b.extend(dyn_entry(17, 0));
    assert_eq!(scan_dynamic(&b, 8), Ok(DynamicInfo { rela_offset: Some(0x100), rela_size: 48 }));
}

#[test]
fn dynamic_section_errors() {
    let mut b = Vec::new();
    b.extend(dyn_entry(17, 0));
    b.extend(dyn_entry(0, 0));
    assert_eq!(scan_dynamic(&b, 0), Err(DynamicError::UnexpectedRel));
    let mut b = Vec::new();
    b.extend(dyn_entry(23, 0));
    assert_eq!(scan_dynamic(&b, 0), Err(DynamicError::UnexpectedJumpRel));
    let mut b = Vec::new();
    b.extend(dyn_entry(7, 0));
    b.extend(vec![0u8; 8]);
    assert_eq!(scan_dynamic(&b, 0), Err(DynamicError::Unterminated));
    assert_eq!(scan_dynamic(&b, 100), Err(DynamicError::Unterminated));
    assert_eq!(scan_dynamic(&[], 0), Err(DynamicError::Unterminated));
}

#[test]
fn written_word_reads_back() {
    let mut image = vec![0xFFu8; 12];
    write_u64_le(&mut image, 2, 0x0102_0304_0506_0708);
    assert_eq!(image, vec![0xFF, 0xFF, 8, 7, 6, 5, 4, 3, 2, 1, 0xFF, 0xFF]);
    assert_eq!(u64::from_le_bytes(image[2..10].try_into().unwrap()), 0x0102_0304_0506_0708);
}

#[test]
fn relative_relocations_are_applied() {
    let mut image = vec![0u8; 24];
    let e = RELAEntry { offset: 8, relocation_type: RelocationType::RELATIVE, symbol_index: 0, addend: 0x1234 };
    assert_eq!(apply_relocation(&mut image, &e, KERNEL_VIRTUAL_BASE), Ok(()));
    assert_eq!(u64::from_le_bytes(image[8..16].try_into().unwrap()), KERNEL_VIRTUAL_BASE + 0x1234);
    let bad = RELAEntry { offset: 0, relocation_type: RelocationType::GlobDat, symbol_index: 1, addend: 0 };
    let before = image.clone();
    assert_eq!(apply_relocation(&mut image, &bad, KERNEL_VIRTUAL_BASE), Err(6));
    assert_eq!(image, before);
}

#[test]
fn relocations_stop_at_first_unsupported() {
    let mut image = vec![0u8; 32];
    let es = vec![
        RELAEntry { offset: 0, relocation_type: RelocationType::RELATIVE, symbol_index: 0, addend: 1 },
        RELAEntry { offset: 8, relocation_type: RelocationType::Other(42), symbol_index: 0, addend: 2 },
        RELAEntry { offset: 16, relocation_type: RelocationType::RELATIVE, symbol_index: 0, addend: 3 },
    ];
    assert_eq!(apply_relocations(&mut image, &es, 0x100), Err(42));
    assert_eq!(u64::from_le_bytes(image[0..8].try_into().unwrap()), 0x101);
    assert_eq!(&image[16..24], &[0u8; 8]);
    let ok = vec![es[0], es[2]];
    let mut image = vec![0u8; 32];
    assert_eq!(apply_relocations(&mut image, &ok, 0x100), Ok(()));
    assert_eq!(u64::from_le_bytes(image[16..24].try_into().unwrap()), 0x103);
}

#[test]
fn largest_wide_video_mode_is_chosen() {
    let modes = vec![(640, 480), (1920, 1080), (1280, 720), (3840, 2160), (800, 600)];
    assert_eq!(select_video_mode(&modes), 3);
    let modes = vec![(640, 480), (1280, 720), (1280, 720)];
    assert_eq!(select_video_mode(&modes), 1);
    let modes = vec![(640, 480), (800, 600)];
    assert_eq!(select_video_mode(&modes), 0);
    assert_eq!(select_video_mode(&[]), 0);
    // Integer division: 20 / 16 == 1 == 9 / 9.
    assert_eq!(select_video_mode(&[(640, 480), (20, 9)]), 1);
}

#[test]
fn kernel_addresses() {
    assert_eq!(kernel_virtual_address(2), 0xffff_8000_0000_2000);
    assert_eq!(kernel_stack_top(10, 4), 0xffff_8000_0000_0000 + 13 * 4096);
    assert_eq!(kernel_entry_address(0x1234), 0xffff_8000_0000_1234);
}

fn rela_bytes(offset: u64, r_type: u32, addend: u64) -> Vec<u8> {
    let mut v = offset.to_le_bytes().to_vec();
    v.extend_from_slice(&r_type.to_le_bytes());
    v.extend_from_slice(&0u32.to_le_bytes());
    v.extend_from_slice(&addend.to_le_bytes());
    v
}

/// A binary with code bytes at 0x40, a dynamic section at 0x100 and a
/// relocation table of two relative relocations at 0x200.
fn kernel_binary(second_type: u32) -> Vec<u8> {
    let mut b = vec![0u8; 0x300];
    for i in 0..8 {
        b[0x40 + i] = 0xC0 + i as u8;
    }
    let mut d = dyn_entry(7, 0x200);
    d.extend(dyn_entry(8, 48));
    d.extend(dyn_entry(0, 0));
    b[0x100..0x100 + d.len()].copy_from_slice(&d);
    let mut r = rela_bytes(0x20, 8, 0x10);
    r.extend(rela_bytes(0x28, second_type, 0x30));
    b[0x200..0x200 + r.len()].copy_from_slice(&r);
    b
}

fn word(image: &[u8], at: usize) -> u64 {
    u64::from_le_bytes(image[at..at + 8].try_into().unwrap())
}

#[test]
fn kernel_image_is_loaded_and_relocated() {
    let b = kernel_binary(8);
    let hs = vec![
        seg(SegmentType::Load, 0x10, 0x40, 8, 0x18),
        seg(SegmentType::Note, 0, 0, 0, 0),
        seg(SegmentType::Dynamic, 0x100, 0x100, 48, 48),
    ];
    let image = load_kernel(&b, &hs, 1, KERNEL_VIRTUAL_BASE).unwrap();
    assert_eq!(image.len(), 4096);
    assert_eq!(&image[0..0x10], &[0u8; 0x10]);
    assert_eq!(&image[0x10..0x18], &[0xC0, 0xC1, 0xC2, 0xC3, 0xC4, 0xC5, 0xC6, 0xC7]);
    assert_eq!(&image[0x18..0x20], &[0u8; 8]);
    assert_eq!(word(&image, 0x20), KERNEL_VIRTUAL_BASE + 0x10);
    assert_eq!(word(&image, 0x28), KERNEL_VIRTUAL_BASE + 0x30);
    assert!(image[0x30..].iter().all(|b| *b == 0));
}

#[test]
fn headers_are_handled_in_order() {
    // The loadable segment comes after the dynamic one and covers a
    // relocated word: the copy overwrites it.
    let b = kernel_binary(8);
    let hs = vec![
        seg(SegmentType::Dynamic, 0x100, 0x100, 48, 48),
        seg(SegmentType::Load, 0x20, 0x40, 8, 8),
    ];
    let image = load_kernel(&b, &hs, 1, KERNEL_VIRTUAL_BASE).unwrap();
    assert_eq!(&image[0x20..0x28], &[0xC0, 0xC1, 0xC2, 0xC3, 0xC4, 0xC5, 0xC6, 0xC7]);
    assert_eq!(word(&image, 0x28), KERNEL_VIRTUAL_BASE + 0x30);
}

#[test]
fn kernel_load_errors() {
    let b = kernel_binary(8);
    // The segment's file bytes reach the end of the single page.
    let hs = vec![seg(SegmentType::Load, 4090, 0x40, 8, 8)];
    assert_eq!(load_kernel(&b, &hs, 1, 0), Err(KernelLoadError::Segment(LoadError::NeededPagesExceedAllocated)));
    // An unsupported relocation type.
    let b2 = kernel_binary(6);
    let hs = vec![seg(SegmentType::Dynamic, 0, 0x100, 48, 48)];
    assert_eq!(load_kernel(&b2, &hs, 1, 0), Err(KernelLoadError::Relocation(6)));
    // A dynamic section without null entry.
    let hs = vec![seg(SegmentType::Dynamic, 0, 0x2F8, 8, 8)];
    assert_eq!(load_kernel(&b, &hs, 1, 0), Err(KernelLoadError::Dynamic(DynamicError::Unterminated)));
    // Segment bytes beyond the end of the binary.
    let hs = vec![seg(SegmentType::Load, 0, 0x2FC, 8, 8)];
    assert_eq!(load_kernel(&b, &hs, 1, 0), Err(KernelLoadError::OutOfBounds));
    // A relocation outside the image.
    let hs = vec![seg(SegmentType::Dynamic, 0, 0x100, 48, 48)];
    let mut b3 = kernel_binary(8);
    b3[0x200..0x208].copy_from_slice(&4092u64.to_le_bytes());
    assert_eq!(load_kernel(&b3, &hs, 1, 0), Err(KernelLoadError::OutOfBounds));
    // No header: an image of zeros.
    assert_eq!(load_kernel(&b, &[], 2, 0), Ok(vec![0u8; 8192]));
}
