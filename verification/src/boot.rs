//! The decisions the bootloader makes while it loads the kernel: where the
//! kernel's segments go, how its dynamic section and relocations are handled,
//! which video mode is chosen, and how many pages each buffer needs.

use vstd::prelude::*;
use crate::bytes::{le_at, le_value, lemma_pow256_values, pow256};
use crate::elf::{
    dyn_matches, rela_matches, read_dynamic_entry, read_rela_entries, DynamicEntryType,
    ProgramHeader, RELAEntry, RelocationType, SegmentType, DYNAMIC_ENTRY_SIZE,
    spec_relocation_number, spec_relocation_type,
};

verus! {

/// The size of a page.
pub const PAGE_SIZE: usize = 4096;

/// The virtual address at which the kernel is mapped.
pub const KERNEL_VIRTUAL_BASE: u64 = 0xffff800000000000;

/// The number of pages of the kernel stack.
pub const KERNEL_STACK_PAGES: usize = 4;

/// The size in bytes of a memory map descriptor.
pub const MEMORY_DESCRIPTOR_SIZE: usize = 40;

/// The number of pages that hold `bytes` bytes.
pub open spec fn spec_pages_needed(bytes: int) -> int {
    (bytes + 4095) / 4096
}

/// The number of pages that hold `bytes` bytes (`bytes` divided by the page
/// size, rounded up).
pub fn pages_needed(bytes: usize) -> (r: usize)
    ensures
        r == spec_pages_needed(bytes as int),
        r * 4096 >= bytes,
        r == 0 || (r - 1) * 4096 < bytes,
{
    let q = bytes / PAGE_SIZE;
    if bytes % PAGE_SIZE != 0 {
        q + 1
    } else {
        q
    }
}

/// The number of pages to allocate for a memory map of `size` bytes: room for
/// the map and two more descriptors, since the allocation itself may add
/// entries to the map.
pub fn memory_map_pages(size: usize) -> (r: usize)
    requires
        size + 2 * MEMORY_DESCRIPTOR_SIZE <= usize::MAX,
    ensures
        r == spec_pages_needed(size + 2 * MEMORY_DESCRIPTOR_SIZE),
{
    pages_needed(size + 2 * MEMORY_DESCRIPTOR_SIZE)
}

/// Whether a segment occupies memory in the kernel image.
pub open spec fn occupies_memory(h: ProgramHeader) -> bool {
    h.segment_type == SegmentType::Load || h.segment_type == SegmentType::Dynamic
}

/// The first page of a segment.
pub open spec fn first_page(h: ProgramHeader) -> int {
    h.vaddr as int / 4096
}

/// The last page of a segment.
pub open spec fn last_page(h: ProgramHeader) -> int {
    (h.vaddr + h.mem_size - 1) / 4096
}

/// Whether the end address of every segment that occupies memory is positive
/// and fits in a machine word.
pub open spec fn segment_ends_valid(hs: Seq<ProgramHeader>) -> bool {
    forall|i: int|
        0 <= i < hs.len() && occupies_memory(#[trigger] hs[i]) ==> 1 <= hs[i].vaddr
            + hs[i].mem_size <= usize::MAX
}

/// The lowest and the highest page that the loadable and dynamic segments
/// occupy. With no such segment, the lowest page is `usize::MAX` and the
/// highest page is 0; the highest page is never below 0.
pub fn kernel_page_bounds(headers: &[ProgramHeader]) -> (r: (usize, usize))
    requires
        segment_ends_valid(headers@),
    ensures
        forall|i: int|
            0 <= i < headers@.len() && occupies_memory(#[trigger] headers@[i]) ==> r.0 <= first_page(
                headers@[i],
            ) && last_page(headers@[i]) <= r.1,
        r.0 == usize::MAX || exists|i: int|
            0 <= i < headers@.len() && occupies_memory(#[trigger] headers@[i]) && r.0 == first_page(
                headers@[i],
            ),
        r.1 == 0 || exists|i: int|
            0 <= i < headers@.len() && occupies_memory(#[trigger] headers@[i]) && r.1 == last_page(
                headers@[i],
            ),
        (forall|i: int| 0 <= i < headers@.len() ==> !occupies_memory(#[trigger] headers@[i])) ==> r
            == (usize::MAX, 0usize),
{
    let mut min_page = usize::MAX;
    let mut max_page = usize::MIN;
    let mut k: usize = 0;
    while k < headers.len()
        invariant
            k <= headers@.len(),
            segment_ends_valid(headers@),
            forall|i: int|
                0 <= i < k && occupies_memory(#[trigger] headers@[i]) ==> min_page <= first_page(
                    headers@[i],
                ) && last_page(headers@[i]) <= max_page,
            min_page == usize::MAX || exists|i: int|
                0 <= i < k && occupies_memory(#[trigger] headers@[i]) && min_page == first_page(
                    headers@[i],
                ),
            max_page == 0 || exists|i: int|
                0 <= i < k && occupies_memory(#[trigger] headers@[i]) && max_page == last_page(
                    headers@[i],
                ),
            (forall|i: int| 0 <= i < k ==> !occupies_memory(#[trigger] headers@[i])) ==> (min_page
                == usize::MAX && max_page == 0),
        decreases headers@.len() - k,
    {
        let segment = &headers[k];
        match segment.segment_type {
            SegmentType::Load | SegmentType::Dynamic => {
                assert(occupies_memory(headers@[k as int]));
                let start = segment.vaddr as usize;
                let end = (segment.vaddr + segment.mem_size) as usize;
                let first = start / PAGE_SIZE;
                let last = (end - 1) / PAGE_SIZE;
                if first < min_page {
                    min_page = first;
                }
                if last > max_page {
                    max_page = last;
                }
            },
            _ => {},
        }
        k = k + 1;
    }
    (min_page, max_page)
}

/// Why a segment cannot be loaded.
#[derive(Debug, PartialEq, Eq, Clone, Copy, Structural)]
pub enum LoadError {
    /// The segment's file bytes reach the end of the pages allocated for the
    /// kernel.
    NeededPagesExceedAllocated,
}

/// Whether the segment's bytes and the kernel image fit together: the file
/// bytes come before the memory end, which lies in the image, and the file
/// bytes lie in the binary.
pub open spec fn segment_fits(image_len: int, binary_len: int, seg: ProgramHeader) -> bool {
    &&& seg.file_size <= seg.mem_size
    &&& seg.vaddr + seg.mem_size <= image_len
    &&& seg.offset + seg.file_size <= binary_len
}

/// Copies a loadable segment into the kernel image: the segment's file bytes
/// go to `vaddr` and the rest of its memory size is zeroed. The segment is
/// refused when its file bytes would reach the end of the image.
pub fn load_segment(image: &mut Vec<u8>, binary: &[u8], seg: &ProgramHeader) -> (r: Result<
    (),
    LoadError,
>)
    requires
        seg.vaddr + seg.file_size <= usize::MAX,
        seg.vaddr + seg.file_size < old(image)@.len() ==> segment_fits(
            old(image)@.len() as int,
            binary@.len() as int,
            *seg,
        ),
    ensures
        r is Err <==> seg.vaddr + seg.file_size >= old(image)@.len(),
        r is Err ==> final(image)@ == old(image)@,
        final(image)@.len() == old(image)@.len(),
        r is Ok ==> forall|j: int|
            0 <= j < final(image)@.len() ==> #[trigger] final(image)@[j] == if seg.vaddr <= j
                < seg.vaddr + seg.file_size {
                binary@[seg.offset + j - seg.vaddr]
            } else if seg.vaddr + seg.file_size <= j < seg.vaddr + seg.mem_size {
                0u8
            } else {
                old(image)@[j]
            },
{
    let vaddr = seg.vaddr as usize;
    let bytes = seg.file_size as usize;
    if vaddr + bytes >= image.len() {
        return Err(LoadError::NeededPagesExceedAllocated);
    }
    let _binary_len = binary.len();
    let offset = seg.offset as usize;
    let mem_size = seg.mem_size as usize;
    let ghost old_image = image@;
    let mut j: usize = 0;
    while j < mem_size
        invariant
            vaddr == seg.vaddr,
            bytes == seg.file_size,
            offset == seg.offset,
            mem_size == seg.mem_size,
            segment_fits(old_image.len() as int, binary@.len() as int, *seg),
            binary@.len() <= usize::MAX,
            old_image.len() <= usize::MAX,
            image@.len() == old_image.len(),
            j <= mem_size,
            forall|x: int|
                0 <= x < image@.len() ==> #[trigger] image@[x] == if vaddr <= x < vaddr + j {
                    if x < vaddr + bytes {
                        binary@[offset + x - vaddr]
                    } else {
                        0u8
                    }
                } else {
                    old_image[x]
                },
        decreases mem_size - j,
    {
        if j < bytes {
            let b = binary[offset + j];
            image.set(vaddr + j, b);
        } else {
            image.set(vaddr + j, 0);
        }
        j = j + 1;
    }
    Ok(())
}

/// Why the dynamic section cannot be used.
#[derive(Debug, PartialEq, Eq, Clone, Copy, Structural)]
pub enum DynamicError {
    /// The section holds relocations without addend.
    UnexpectedRel,
    /// The section holds procedure linkage relocations.
    UnexpectedJumpRel,
    /// The section runs past the end of the file before its null entry.
    Unterminated,
}

/// Where the relocation table is, as the dynamic section gives it.
#[derive(Debug, PartialEq, Eq, Clone, Copy, Structural)]
pub struct DynamicInfo {
    /// The file offset of the relocation table, if the section names one.
    pub rela_offset: Option<u64>,
    /// The size in bytes of the relocation table (0 if the section names none).
    pub rela_size: u64,
}

/// The outcome of scanning the dynamic entries from byte `at` on, with the
/// relocation table offset and size found so far: entries are read until the
/// null entry; the last relocation table and size entries win; relocations
/// without addend and procedure linkage relocations are refused.
pub open spec fn spec_scan_dynamic(b: Seq<u8>, at: int, info: DynamicInfo) -> Result<
    DynamicInfo,
    DynamicError,
>
    decreases b.len() - at,
{
    if at < 0 || at + 16 > b.len() {
        Err(DynamicError::Unterminated)
    } else {
        let tag = le_at(b, at, 8);
        let val = le_at(b, at + 8, 8) as u64;
        if tag == 0 {
            Ok(info)
        } else if tag == 17 {
            Err(DynamicError::UnexpectedRel)
        } else if tag == 23 {
            Err(DynamicError::UnexpectedJumpRel)
        } else if tag == 7 {
            spec_scan_dynamic(b, at + 16, DynamicInfo { rela_offset: Some(val), ..info })
        } else if tag == 8 {
            spec_scan_dynamic(b, at + 16, DynamicInfo { rela_size: val, ..info })
        } else {
            spec_scan_dynamic(b, at + 16, info)
        }
    }
}

/// Reads the dynamic section that starts at byte `start` of the kernel
/// binary and returns where its relocation table is.
pub fn scan_dynamic(binary: &[u8], start: usize) -> (r: Result<DynamicInfo, DynamicError>)
    ensures
        r == spec_scan_dynamic(binary@, start as int, DynamicInfo { rela_offset: None, rela_size: 0 }),
{
    let _len = binary.len();
    let mut info = DynamicInfo { rela_offset: None, rela_size: 0 };
    let mut at = start;
    loop
        invariant
            binary@.len() <= usize::MAX,
            spec_scan_dynamic(binary@, at as int, info) == spec_scan_dynamic(
                binary@,
                start as int,
                DynamicInfo { rela_offset: None, rela_size: 0 },
            ),
        decreases binary@.len() - at,
    {
        if at > binary.len() || binary.len() - at < DYNAMIC_ENTRY_SIZE {
            return Err(DynamicError::Unterminated);
        }
        let entry = read_dynamic_entry(binary, at);
        proof {
            lemma_le_u64(binary@, at as int);
        }
        match entry.d_tag {
            DynamicEntryType::Null => {
                return Ok(info);
            },
            DynamicEntryType::Rela => {
                info = DynamicInfo { rela_offset: Some(entry.d_val), ..info };
            },
            DynamicEntryType::RelaSize => {
                info = DynamicInfo { rela_size: entry.d_val, ..info };
            },
            DynamicEntryType::Rel => {
                return Err(DynamicError::UnexpectedRel);
            },
            DynamicEntryType::JumpRel => {
                return Err(DynamicError::UnexpectedJumpRel);
            },
            _ => {},
        }
        at = at + DYNAMIC_ENTRY_SIZE;
    }
}

proof fn lemma_le_u64(b: Seq<u8>, at: int)
    requires
        0 <= at,
        at + 16 <= b.len(),
    ensures
        le_at(b, at, 8) < 0x1_0000_0000_0000_0000,
        le_at(b, at + 8, 8) < 0x1_0000_0000_0000_0000,
{
    crate::bytes::lemma_field_bound(b, at, 8, false);
    crate::bytes::lemma_field_bound(b, at + 8, 8, false);
}

/// `img` with the eight little-endian bytes of `v` written at `offset`.
pub open spec fn le_write(img: Seq<u8>, offset: int, v: u64) -> Seq<u8> {
    Seq::new(
        img.len(),
        |j: int|
            if offset <= j < offset + 8 {
                ((v >> ((8 * (j - offset)) as u64)) & 0xffu64) as u8
            } else {
                img[j]
            },
    )
}

/// Reading back a written `u64` gives the value written, and the bytes around
/// it are untouched.
pub proof fn lemma_read_after_write(img: Seq<u8>, offset: int, v: u64)
    requires
        0 <= offset,
        offset + 8 <= img.len(),
    ensures
        le_at(le_write(img, offset, v), offset, 8) == v,
        le_write(img, offset, v).len() == img.len(),
        forall|j: int|
            0 <= j < img.len() && !(offset <= j < offset + 8) ==> #[trigger] le_write(img, offset, v)[j]
                == img[j],
{
    let w = le_write(img, offset, v);
    let s = w.subrange(offset, offset + 8);
    lemma_le_value_8(s);
    assert(s[0] == ((v >> 0u64) & 0xffu64) as u8);
    assert(s[1] == ((v >> 8u64) & 0xffu64) as u8);
    assert(s[2] == ((v >> 16u64) & 0xffu64) as u8);
    assert(s[3] == ((v >> 24u64) & 0xffu64) as u8);
    assert(s[4] == ((v >> 32u64) & 0xffu64) as u8);
    assert(s[5] == ((v >> 40u64) & 0xffu64) as u8);
    assert(s[6] == ((v >> 48u64) & 0xffu64) as u8);
    assert(s[7] == ((v >> 56u64) & 0xffu64) as u8);
    lemma_u64_bytes(v);
}

proof fn lemma_le_value_8(s: Seq<u8>)
    requires
        s.len() == 8,
    ensures
        le_value(s) == s[0] + 256 * (s[1] + 256 * (s[2] + 256 * (s[3] + 256 * (s[4] + 256 * (s[5]
            + 256 * (s[6] + 256 * s[7])))))),
{
    reveal_with_fuel(le_value, 9);
    assert(s.drop_first().drop_first().drop_first().drop_first().drop_first().drop_first().drop_first().drop_first().len() == 0);
}

proof fn lemma_u64_bytes(v: u64)
    by (bit_vector)
    ensures
        v == ((v >> 0u64) & 0xffu64) as u8 as u64 + 256 * (((v >> 8u64) & 0xffu64) as u8 as u64 + 256
            * (((v >> 16u64) & 0xffu64) as u8 as u64 + 256 * (((v >> 24u64) & 0xffu64) as u8 as u64 + 256
            * (((v >> 32u64) & 0xffu64) as u8 as u64 + 256 * (((v >> 40u64) & 0xffu64) as u8 as u64 + 256
            * (((v >> 48u64) & 0xffu64) as u8 as u64 + 256 * (((v >> 56u64) & 0xffu64) as u8 as u64))))))),
{
}

/// Writes `v` at `offset` of `image`, least significant byte first.
pub fn write_u64_le(image: &mut Vec<u8>, offset: usize, v: u64)
    requires
        offset + 8 <= old(image)@.len(),
    ensures
        final(image)@ == le_write(old(image)@, offset as int, v),
{
    let ghost old_image = image@;
    let _len = image.len();
    let mut k: usize = 0;
    while k < 8
        invariant
            offset + 8 <= old_image.len(),
            old_image.len() <= usize::MAX,
            image@.len() == old_image.len(),
            k <= 8,
            forall|j: int|
                0 <= j < image@.len() ==> #[trigger] image@[j] == if offset <= j < offset + k {
                    ((v >> ((8 * (j - offset)) as u64)) & 0xffu64) as u8
                } else {
                    old_image[j]
                },
        decreases 8 - k,
    {
        let shift = (8 * k) as u64;
        let byte = ((v >> shift) & 0xff) as u8;
        image.set(offset + k, byte);
        k = k + 1;
    }
    assert(image@ =~= le_write(old_image, offset as int, v));
}

/// Whether applying the relocation `e` against `base` is defined on an image
/// of `len` bytes: a relative relocation must lie in the image and its
/// target address must not overflow.
pub open spec fn relocation_in_bounds(e: RELAEntry, len: int, base: u64) -> bool {
    e.relocation_type == RelocationType::RELATIVE ==> (e.offset + 8 <= len && base + e.addend
        <= u64::MAX)
}

/// Applies one relocation to the kernel image. Only relative relocations are
/// supported: the address `base + addend` is written at the relocation's
/// offset. Another type is refused with its number, and the image is left
/// as it is.
pub fn apply_relocation(image: &mut Vec<u8>, entry: &RELAEntry, base: u64) -> (r: Result<(), u32>)
    requires
        relocation_in_bounds(*entry, old(image)@.len() as int, base),
    ensures
        entry.relocation_type == RelocationType::RELATIVE ==> r is Ok && final(image)@ == le_write(
            old(image)@,
            entry.offset as int,
            (base + entry.addend) as u64,
        ),
        entry.relocation_type != RelocationType::RELATIVE ==> r == Err::<(), u32>(
            spec_relocation_number(entry.relocation_type),
        ) && final(image)@ == old(image)@,
{
    let _len = image.len();
    match entry.relocation_type {
        RelocationType::RELATIVE => {
            write_u64_le(image, entry.offset as usize, base + entry.addend);
            Ok(())
        },
        t => Err(t.number()),
    }
}

/// The image after applying the relocations `es` in order, or the number of
/// the first relocation type that is not supported.
pub open spec fn spec_apply_relocations(img: Seq<u8>, es: Seq<RELAEntry>, base: u64) -> Result<
    Seq<u8>,
    u32,
>
    decreases es.len(),
{
    if es.len() == 0 {
        Ok(img)
    } else if es[0].relocation_type == RelocationType::RELATIVE {
        spec_apply_relocations(
            le_write(img, es[0].offset as int, (base + es[0].addend) as u64),
            es.drop_first(),
            base,
        )
    } else {
        Err(spec_relocation_number(es[0].relocation_type))
    }
}

/// Applies the relocations in order; stops at the first relocation whose type
/// is not supported and returns its number.
pub fn apply_relocations(image: &mut Vec<u8>, entries: &[RELAEntry], base: u64) -> (r: Result<
    (),
    u32,
>)
    requires
        forall|i: int|
            0 <= i < entries@.len() ==> relocation_in_bounds(
                #[trigger] entries@[i],
                old(image)@.len() as int,
                base,
            ),
    ensures
        final(image)@.len() == old(image)@.len(),
        spec_apply_relocations(old(image)@, entries@, base) matches Ok(img) ==> r is Ok
            && final(image)@ == img,
        spec_apply_relocations(old(image)@, entries@, base) matches Err(n) ==> r == Err::<(), u32>(n),
{
    let ghost old_image = image@;
    assert(entries@.subrange(0, entries@.len() as int) =~= entries@);
    let mut i: usize = 0;
    while i < entries.len()
        invariant
            i <= entries@.len(),
            old_image == old(image)@,
            image@.len() == old_image.len(),
            forall|k: int|
                0 <= k < entries@.len() ==> relocation_in_bounds(
                    #[trigger] entries@[k],
                    old_image.len() as int,
                    base,
                ),
            spec_apply_relocations(image@, entries@.subrange(i as int, entries@.len() as int), base)
                == spec_apply_relocations(old_image, entries@, base),
        decreases entries@.len() - i,
    {
        let ghost rest = entries@.subrange(i as int, entries@.len() as int);
        assert(rest.drop_first() =~= entries@.subrange(i + 1, entries@.len() as int));
        assert(rest[0] == entries@[i as int]);
        let res = apply_relocation(image, &entries[i], base);
        match res {
            Ok(()) => {},
            Err(n) => {
                return Err(n);
            },
        }
        i = i + 1;
    }
    assert(entries@.subrange(i as int, entries@.len() as int).len() == 0);
    Ok(())
}

/// Why the kernel image cannot be built.
#[derive(Debug, PartialEq, Eq, Clone, Copy, Structural)]
pub enum KernelLoadError {
    /// A loadable segment does not fit in the image.
    Segment(LoadError),
    /// The dynamic section cannot be used.
    Dynamic(DynamicError),
    /// A relocation has a type that is not supported; its number.
    Relocation(u32),
    /// A segment or a relocation table lies outside the binary, a
    /// relocation lies outside the image, or an address overflows.
    OutOfBounds,
}

/// The relocation with addend stored at byte `at` of `b`.
pub open spec fn rela_at(b: Seq<u8>, at: int) -> RELAEntry {
    RELAEntry {
        offset: le_at(b, at, 8) as u64,
        relocation_type: spec_relocation_type(le_at(b, at + 8, 4) as u32),
        symbol_index: le_at(b, at + 12, 4) as u32,
        addend: le_at(b, at + 16, 8) as u64,
    }
}

/// The `count` relocations with addend stored from byte `at` of `b` on.
pub open spec fn rela_table(b: Seq<u8>, at: int, count: nat) -> Seq<RELAEntry> {
    Seq::new(count, |i: int| rela_at(b, at + i * 24))
}

/// The dynamic section that starts at the file offset of `h`, read from the
/// start with no relocation table found yet.
pub open spec fn dynamic_info(b: Seq<u8>, h: ProgramHeader) -> Result<DynamicInfo, DynamicError> {
    spec_scan_dynamic(b, h.offset as int, DynamicInfo { rela_offset: None, rela_size: 0 })
}

/// The relocations that a dynamic section names: its table holds as many
/// whole entries as its size allows.
pub open spec fn named_relocations(b: Seq<u8>, info: DynamicInfo) -> Seq<RELAEntry> {
    rela_table(b, info.rela_offset->0 as int, (info.rela_size / 24) as nat)
}

/// `img` with a loadable segment copied in: its file bytes at `vaddr`, then
/// zeros up to its memory size.
pub open spec fn spec_loaded(img: Seq<u8>, b: Seq<u8>, h: ProgramHeader) -> Seq<u8> {
    Seq::new(
        img.len(),
        |j: int|
            if h.vaddr <= j < h.vaddr + h.file_size {
                b[h.offset + j - h.vaddr]
            } else if h.vaddr + h.file_size <= j < h.vaddr + h.mem_size {
                0u8
            } else {
                img[j]
            },
    )
}

/// The image after handling one program header: a header whose bytes lie
/// outside the binary or the image is refused; a loadable segment is copied
/// in (refused when its file bytes reach the end of the image); the
/// relocations a dynamic section names are applied against `base`; other
/// segments change nothing.
pub open spec fn spec_load_step(img: Seq<u8>, b: Seq<u8>, h: ProgramHeader, base: u64) -> Result<
    Seq<u8>,
    KernelLoadError,
> {
    if !step_defined(img.len() as int, b, h, base) {
        Err(KernelLoadError::OutOfBounds)
    } else {
        match h.segment_type {
        SegmentType::Load => if h.vaddr + h.file_size >= img.len() {
            Err(KernelLoadError::Segment(LoadError::NeededPagesExceedAllocated))
        } else {
            Ok(spec_loaded(img, b, h))
        },
        SegmentType::Dynamic => match dynamic_info(b, h) {
            Err(e) => Err(KernelLoadError::Dynamic(e)),
            Ok(info) => if info.rela_size == 0 {
                Ok(img)
            } else {
                match spec_apply_relocations(img, named_relocations(b, info), base) {
                    Ok(i2) => Ok(i2),
                    Err(n) => Err(KernelLoadError::Relocation(n)),
                }
            },
        },
        _ => Ok(img),
        }
    }
}

/// The image after handling the program headers `hs` in order, or the first
/// error.
pub open spec fn spec_load_kernel(img: Seq<u8>, b: Seq<u8>, hs: Seq<ProgramHeader>, base: u64) -> Result<
    Seq<u8>,
    KernelLoadError,
>
    decreases hs.len(),
{
    if hs.len() == 0 {
        Ok(img)
    } else {
        match spec_load_step(img, b, hs[0], base) {
            Err(e) => Err(e),
            Ok(i2) => spec_load_kernel(i2, b, hs.drop_first(), base),
        }
    }
}

/// Whether handling the header `h` on an image of `len` bytes only reads and
/// writes what is there: a loadable segment that fits lies in the binary and
/// the image; a dynamic section that names relocations names a table that
/// lies in the binary, and each relative relocation of it lies in the image
/// with a target address that does not overflow.
pub open spec fn step_defined(len: int, b: Seq<u8>, h: ProgramHeader, base: u64) -> bool {
    match h.segment_type {
        SegmentType::Load => h.vaddr + h.file_size <= usize::MAX && (h.vaddr + h.file_size < len
            ==> segment_fits(len, b.len() as int, h)),
        SegmentType::Dynamic => h.offset <= usize::MAX && (dynamic_info(b, h) matches Ok(info)
            ==> info.rela_size != 0 ==> {
            &&& info.rela_offset is Some
            &&& info.rela_offset->0 + (info.rela_size / 24) * 24 <= b.len()
            &&& forall|k: int|
                0 <= k < info.rela_size / 24 ==> relocation_in_bounds(
                    #[trigger] named_relocations(b, info)[k],
                    len,
                    base,
                )
        }),
        _ => true,
    }
}

/// A relocation read from the bytes is the one `rela_at` gives.
proof fn lemma_rela_matches(e: RELAEntry, b: Seq<u8>, at: int)
    requires
        rela_matches(e, b, at),
    ensures
        e == rela_at(b, at),
{
}

/// Whether every relative relocation of `entries` lies in an image of `len`
/// bytes with a target address that does not overflow.
fn relocations_in_bounds(entries: &Vec<RELAEntry>, len: usize, base: u64) -> (r: bool)
    ensures
        r == forall|k: int|
            0 <= k < entries@.len() ==> relocation_in_bounds(#[trigger] entries@[k], len as int, base),
{
    let mut i: usize = 0;
    while i < entries.len()
        invariant
            i <= entries@.len(),
            forall|k: int|
                0 <= k < i ==> relocation_in_bounds(#[trigger] entries@[k], len as int, base),
        decreases entries@.len() - i,
    {
        let e = &entries[i];
        match e.relocation_type {
            RelocationType::RELATIVE => {
                if e.offset > u64::MAX - 8 || e.offset + 8 > len as u64 || e.addend > u64::MAX - base {
                    return false;
                }
            },
            _ => {},
        }
        i = i + 1;
    }
    true
}

/// Handles one program header on the kernel image.
fn load_step(image: &mut Vec<u8>, binary: &[u8], h: &ProgramHeader, base: u64) -> (r: Result<
    (),
    KernelLoadError,
>)
    ensures
        final(image)@.len() == old(image)@.len(),
        match spec_load_step(old(image)@, binary@, *h, base) {
            Ok(i2) => r is Ok && final(image)@ == i2,
            Err(e) => r == Err::<(), KernelLoadError>(e),
        },
{
    let ghost old_image = image@;
    let len = image.len();
    let blen = binary.len();
    match h.segment_type {
        SegmentType::Load => {
            if h.vaddr > u64::MAX - h.file_size || h.vaddr + h.file_size > usize::MAX as u64 {
                return Err(KernelLoadError::OutOfBounds);
            }
            if ((h.vaddr + h.file_size) as usize) < len {
                if h.file_size > h.mem_size || h.vaddr > u64::MAX - h.mem_size || h.vaddr + h.mem_size
                    > len as u64 || h.offset > u64::MAX - h.file_size || h.offset + h.file_size
                    > blen as u64 {
                    return Err(KernelLoadError::OutOfBounds);
                }
            }
            match load_segment(image, binary, h) {
                Ok(()) => {
                    assert(image@ =~= spec_loaded(old_image, binary@, *h));
                    Ok(())
                },
                Err(e) => Err(KernelLoadError::Segment(e)),
            }
        },
        SegmentType::Dynamic => {
            if h.offset > usize::MAX as u64 {
                return Err(KernelLoadError::OutOfBounds);
            }
            let start = h.offset as usize;
            assert(start == h.offset);
            let info = match scan_dynamic(binary, start) {
                Ok(info) => info,
                Err(e) => {
                    return Err(KernelLoadError::Dynamic(e));
                },
            };
            assert(dynamic_info(binary@, *h) == Ok::<DynamicInfo, DynamicError>(info));
            if info.rela_size == 0 {
                return Ok(());
            }
            let offset = match info.rela_offset {
                Some(o) => o,
                None => {
                    return Err(KernelLoadError::OutOfBounds);
                },
            };
            let count64 = info.rela_size / 24;
            if offset > u64::MAX - count64 * 24 || offset + count64 * 24 > blen as u64 {
                return Err(KernelLoadError::OutOfBounds);
            }
            let count = count64 as usize;
            let at = offset as usize;
            let entries = read_rela_entries(binary, at, count);
            proof {
                assert(at == offset);
                assert(entries@ =~= named_relocations(binary@, info)) by {
                    assert forall|k: int| 0 <= k < count implies entries@[k] == named_relocations(
                        binary@,
                        info,
                    )[k] by {
                        assert(rela_matches(entries@[k], binary@, at + k * 24));
                        lemma_rela_matches(entries@[k], binary@, offset + k * 24);
                    }
                }
            }
            if !relocations_in_bounds(&entries, len, base) {
                proof {
                    let k = choose|k: int|
                        0 <= k < entries@.len() && !relocation_in_bounds(#[trigger] entries@[k], len as int, base);
                    assert(named_relocations(binary@, info)[k] == entries@[k]);
                }
                return Err(KernelLoadError::OutOfBounds);
            }
            match apply_relocations(image, entries.as_slice(), base) {
                Ok(()) => Ok(()),
                Err(n) => Err(KernelLoadError::Relocation(n)),
            }
        },
        _ => Ok(()),
    }
}

/// Builds the kernel image of `page_count` pages from the kernel binary: the
/// program headers are handled in order, loadable segments copied in and the
/// relocations of dynamic sections applied against `base`. Memory that no
/// segment covers is zero.
pub fn load_kernel(binary: &[u8], headers: &[ProgramHeader], page_count: usize, base: u64) -> (r:
    Result<Vec<u8>, KernelLoadError>)
    requires
        page_count * 4096 <= usize::MAX,
    ensures
        match spec_load_kernel(
            Seq::new((page_count * 4096) as nat, |j: int| 0u8),
            binary@,
            headers@,
            base,
        ) {
            Ok(img) => r matches Ok(v) && v@ == img,
            Err(e) => r == Err::<Vec<u8>, KernelLoadError>(e),
        },
{
    let len = page_count * PAGE_SIZE;
    let mut image: Vec<u8> = Vec::new();
    let mut j: usize = 0;
    while j < len
        invariant
            j <= len,
            image@.len() == j,
            forall|k: int| 0 <= k < j ==> #[trigger] image@[k] == 0u8,
        decreases len - j,
    {
        image.push(0);
        j = j + 1;
    }
    let ghost zero = Seq::new((page_count * 4096) as nat, |j: int| 0u8);
    assert(image@ =~= zero);
    assert(headers@.subrange(0, headers@.len() as int) =~= headers@);
    let mut i: usize = 0;
    while i < headers.len()
        invariant
            i <= headers@.len(),
            image@.len() == len,
            len == page_count * 4096,
            zero == Seq::new((page_count * 4096) as nat, |j: int| 0u8),
            spec_load_kernel(image@, binary@, headers@.subrange(i as int, headers@.len() as int), base)
                == spec_load_kernel(zero, binary@, headers@, base),
        decreases headers@.len() - i,
    {
        let ghost rest = headers@.subrange(i as int, headers@.len() as int);
        let ghost before = image@;
        proof {
            assert(rest.len() > 0);
            assert(rest[0] == headers@[i as int]);
            assert(rest.drop_first() =~= headers@.subrange(i + 1, headers@.len() as int));
        }
        match load_step(&mut image, binary, &headers[i], base) {
            Ok(()) => {},
            Err(e) => {
                assert(spec_load_kernel(before, binary@, rest, base) == Err::<Seq<u8>, KernelLoadError>(e));
                return Err(e);
            },
        }
        i = i + 1;
    }
    proof {
        assert(headers@.subrange(headers@.len() as int, headers@.len() as int).len() == 0);
    }
    Ok(image)
}

/// Whether a video mode of `width` by `height` pixels has a 16:9 shape, as
/// integer division tells it.
pub open spec fn is_wide(width: u32, height: u32) -> bool {
    width / 16 == height / 9
}

/// The number of pixels of a mode.
pub open spec fn mode_size(m: (u32, u32)) -> int {
    m.0 * m.1
}

/// Chooses the video mode to use: among the 16:9 modes with at least one
/// pixel, the first of the largest; mode 0 when there is none.
pub fn select_video_mode(modes: &[(u32, u32)]) -> (r: u32)
    requires
        modes@.len() <= u32::MAX,
    ensures
        (forall|j: int| 0 <= j < modes@.len() && is_wide(modes@[j].0, modes@[j].1) ==> mode_size(
            #[trigger] modes@[j],
        ) == 0) ==> r == 0,
        (exists|j: int| 0 <= j < modes@.len() && is_wide(modes@[j].0, modes@[j].1) && mode_size(
            #[trigger] modes@[j],
        ) > 0) ==> {
            &&& r < modes@.len()
            &&& is_wide(modes@[r as int].0, modes@[r as int].1)
            &&& mode_size(modes@[r as int]) > 0
            &&& forall|j: int|
                0 <= j < modes@.len() && is_wide(modes@[j].0, modes@[j].1) ==> mode_size(
                    #[trigger] modes@[j],
                ) <= mode_size(modes@[r as int])
            &&& forall|j: int|
                0 <= j < r && is_wide(modes@[j].0, modes@[j].1) ==> mode_size(#[trigger] modes@[j])
                    < mode_size(modes@[r as int])
        },
{
    let mut best: u32 = 0;
    let mut best_size: u64 = 0;
    let mut i: usize = 0;
    while i < modes.len()
        invariant
            i <= modes@.len(),
            modes@.len() <= u32::MAX,
            best_size == 0 ==> best == 0,
            best_size == 0 ==> forall|j: int|
                0 <= j < i && is_wide(modes@[j].0, modes@[j].1) ==> mode_size(#[trigger] modes@[j])
                    == 0,
            best_size > 0 ==> {
                &&& best < i
                &&& is_wide(modes@[best as int].0, modes@[best as int].1)
                &&& mode_size(modes@[best as int]) == best_size
            },
            forall|j: int|
                0 <= j < i && is_wide(modes@[j].0, modes@[j].1) ==> mode_size(#[trigger] modes@[j])
                    <= best_size,
            forall|j: int|
                0 <= j < best && is_wide(modes@[j].0, modes@[j].1) ==> mode_size(#[trigger] modes@[j])
                    < best_size,
        decreases modes@.len() - i,
    {
        let (w, h) = modes[i];
        let width = w as u64;
        let height = h as u64;
        proof {
            assert(width * height <= 0xffff_ffff * 0xffff_ffff) by (nonlinear_arith)
                requires width <= 0xffff_ffff, height <= 0xffff_ffff;
        }
        let size = width * height;
        if w / 16 == h / 9 && size > best_size {
            best = i as u32;
            best_size = size;
        }
        i = i + 1;
    }
    best
}

/// The virtual address of page `i` of the kernel.
pub fn kernel_virtual_address(i: usize) -> (r: u64)
    requires
        KERNEL_VIRTUAL_BASE + i * 4096 <= u64::MAX,
    ensures
        r == KERNEL_VIRTUAL_BASE + i * 4096,
{
    KERNEL_VIRTUAL_BASE + (i as u64) * 4096
}

/// The address of the top of the kernel stack, which is mapped right after
/// the kernel's pages: the start of its last page.
pub fn kernel_stack_top(kernel_page_count: usize, stack_pages: usize) -> (r: u64)
    requires
        stack_pages >= 1,
        KERNEL_VIRTUAL_BASE + (kernel_page_count + stack_pages - 1) * 4096 <= u64::MAX,
    ensures
        r == KERNEL_VIRTUAL_BASE + (kernel_page_count + stack_pages - 1) * 4096,
{
    proof {
        assert((kernel_page_count + stack_pages - 1) * 4096 <= u64::MAX - KERNEL_VIRTUAL_BASE);
        assert(kernel_page_count + stack_pages - 1 <= 0x8_0000_0000_0000) by (nonlinear_arith)
            requires
                (kernel_page_count + stack_pages - 1) * 4096 <= u64::MAX - KERNEL_VIRTUAL_BASE,
                KERNEL_VIRTUAL_BASE == 0xffff800000000000u64,
                kernel_page_count + stack_pages - 1 >= 0,
        ;
    }
    let pages = (kernel_page_count as u64) + (stack_pages as u64) - 1;
    KERNEL_VIRTUAL_BASE + pages * 4096
}

/// The virtual address of the kernel's entry point.
pub fn kernel_entry_address(entry: u64) -> (r: u64)
    requires
        KERNEL_VIRTUAL_BASE + entry <= u64::MAX,
    ensures
        r == KERNEL_VIRTUAL_BASE + entry,
{
    KERNEL_VIRTUAL_BASE + entry
}

} // verus!
