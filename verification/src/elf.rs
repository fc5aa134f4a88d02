//! Parsing of 64-bit ELF files: the file header and the program header,
//! section header, relocation and dynamic tables.
//!
//! The header is read in the byte order that the identification names; the
//! tables are read least significant byte first.

use vstd::prelude::*;
use crate::bytes::{field_value, le_at, read_u16, read_u32, read_u64};

verus! {

/// The word size of the file.
#[derive(PartialEq, Eq, Clone, Copy, Debug, Structural)]
pub enum Bits {
    Bit32,
    Bit64,
}

/// The byte order of the file.
#[derive(PartialEq, Eq, Clone, Copy, Debug, Structural)]
pub enum Endian {
    Little,
    Big,
}

/// The type of an ELF file.
#[derive(PartialEq, Eq, Clone, Copy, Debug, Structural)]
pub enum FileType {
    Unknown,
    Relocatable,
    Executable,
    SharedObject,
    CoreFile,
}

/// The identification bytes at the start of an ELF file.
#[derive(PartialEq, Eq, Clone, Copy)]
pub struct Ident {
    pub magic: [u8; 4],
    pub bits: Bits,
    pub endian: Endian,
    pub version: u8,
    pub target_os: u8,
    pub abi_version: u8,
    pub padding: [u8; 7],
}

/// The header of a 64-bit ELF file.
pub struct Elf64 {
    pub ident: Ident,
    pub f_type: FileType,
    pub machine: u16,
    pub version: u32,
    pub entry: u64,
    pub ph_offset: u64,
    pub sh_offset: u64,
    pub flags: u32,
    pub hdr_size: u16,
    pub ph_entry_size: u16,
    pub ph_entry_count: u16,
    pub sh_entry_size: u16,
    pub sh_entry_count: u16,
    pub sh_name_index: u16,
}

/// Why a file is not a loadable kernel image.
#[derive(Debug, PartialEq, Eq, Clone, Copy)]
pub enum ElfParseError {
    Magic([u8; 4]),
    Bits32,
    Version(u32),
    TargetOS(u8),
    FileType(FileType),
    Machine(u16),
    PHOffset(u64),
    PHSize(u16),
    SHSize(u16),
    HeaderSize(u16),
}

/// The type of a program header.
#[derive(PartialEq, Eq, Clone, Copy, Debug, Structural)]
pub enum SegmentType {
    Null,
    Load,
    Dynamic,
    Interpreter,
    Note,
    Shlib,
    ProgramHeader,
    ThreadLocals,
    /// A type that this loader does not know, with its number.
    Other(u32),
}

/// An entry of the program header table.
#[derive(PartialEq, Eq, Clone, Copy, Debug, Structural)]
pub struct ProgramHeader {
    pub segment_type: SegmentType,
    pub flags: u32,
    pub offset: u64,
    pub vaddr: u64,
    pub paddr: u64,
    pub file_size: u64,
    pub mem_size: u64,
    pub align: u64,
}

/// The type of a section.
#[derive(PartialEq, Eq, Clone, Copy, Debug, Structural)]
pub enum SectionType {
    Null,
    Progbits,
    Symtab,
    Strtab,
    Rela,
    Hash,
    Dynamic,
    Note,
    Nobits,
    Rel,
    Shlib,
    Dynsym,
    InitArray,
    FiniArray,
    PreinitArray,
    Group,
    SymtabShndx,
    /// A type that this loader does not know, with its number.
    Other(u32),
}

/// An entry of the section header table.
#[derive(PartialEq, Eq, Clone, Copy, Debug, Structural)]
pub struct SectionHeader {
    pub name: u32,
    pub section_type: SectionType,
    pub flags: u64,
    pub vaddr: u64,
    pub offset: u64,
    pub size: u64,
    pub link_index: u32,
    pub info: u32,
    pub addr_align: u64,
    pub entry_size: u64,
}

/// A relocation without addend.
#[derive(PartialEq, Eq, Clone, Copy, Debug, Structural)]
pub struct RELEntry {
    pub offset: u64,
    pub relocation_type: RelocationType,
    pub symbol_index: u32,
}

/// A relocation with addend.
#[derive(PartialEq, Eq, Clone, Copy, Debug, Structural)]
pub struct RELAEntry {
    pub offset: u64,
    pub relocation_type: RelocationType,
    pub symbol_index: u32,
    pub addend: u64,
}

/// The x86-64 relocation types.
#[derive(PartialEq, Eq, Clone, Copy, Debug, Structural)]
pub enum RelocationType {
    NONE,
    B64,
    PC32,
    GOT32,
    PLT32,
    COPY,
    GlobDat,
    JumpSlot,
    RELATIVE,
    GOTPCREL,
    B32,
    B32S,
    B16,
    PC16,
    B8,
    PC8,
    PC64,
    GOTOFF64,
    GOTPC32,
    SIZE32,
    SIZE64,
    /// A type that this loader does not know, with its number.
    Other(u32),
}

/// The tags of the entries of the dynamic section.
#[derive(PartialEq, Eq, Clone, Copy, Debug, Structural)]
pub enum DynamicEntryType {
    Null,
    Needed,
    PLTRelSize,
    PLTGOT,
    Hash,
    StringTable,
    SymbolTable,
    Rela,
    RelaSize,
    RelaEntry,
    StringSize,
    SymbolEntry,
    Init,
    Fini,
    SONAME,
    RPATH,
    Symbolic,
    Rel,
    RelSize,
    RelEntry,
    PLTRel,
    Debug,
    TextRel,
    JumpRel,
    BindNow,
    InitArray,
    FiniArray,
    InitArraySize,
    FiniArraySize,
    RunPath,
    Flags,
    Encoding,
    PreInitArray,
    PreInitArraySize,
    /// A tag that this loader does not know, with its number.
    Other(u64),
}

/// An entry of the dynamic section.
#[derive(PartialEq, Eq, Clone, Copy, Debug, Structural)]
pub struct DynamicSectionEntry {
    pub d_tag: DynamicEntryType,
    pub d_val: u64,
}

/// The size in bytes of the file header.
pub const ELF_HEADER_SIZE: usize = 0x40;
/// The size in bytes of a program header.
pub const PROGRAM_HEADER_SIZE: usize = 0x38;
/// The size in bytes of a section header.
pub const SECTION_HEADER_SIZE: usize = 0x40;
/// The size in bytes of a relocation with addend.
pub const RELA_ENTRY_SIZE: usize = 24;
/// The size in bytes of a relocation without addend.
pub const REL_ENTRY_SIZE: usize = 16;
/// The size in bytes of a dynamic section entry.
pub const DYNAMIC_ENTRY_SIZE: usize = 16;

// ---------------------------------------------------------------------------
// Decoding of the numbered types
// ---------------------------------------------------------------------------

/// The file type with number `c`; numbers without a file type give `Unknown`.
pub open spec fn spec_file_type(c: u16) -> FileType {
    if c == 1 {
        FileType::Relocatable
    } else if c == 2 {
        FileType::Executable
    } else if c == 3 {
        FileType::SharedObject
    } else if c == 4 {
        FileType::CoreFile
    } else {
        FileType::Unknown
    }
}

/// Decodes a file type number.
pub fn file_type_from_u16(c: u16) -> (r: FileType)
    ensures
        r == spec_file_type(c),
{
    if c == 1 {
        FileType::Relocatable
    } else if c == 2 {
        FileType::Executable
    } else if c == 3 {
        FileType::SharedObject
    } else if c == 4 {
        FileType::CoreFile
    } else {
        FileType::Unknown
    }
}

/// The segment type with number `c`.
pub open spec fn spec_segment_type(c: u32) -> SegmentType {
    match c {
        0 => SegmentType::Null,
        1 => SegmentType::Load,
        2 => SegmentType::Dynamic,
        3 => SegmentType::Interpreter,
        4 => SegmentType::Note,
        5 => SegmentType::Shlib,
        6 => SegmentType::ProgramHeader,
        7 => SegmentType::ThreadLocals,
        _ => SegmentType::Other(c),
    }
}

/// Decodes a segment type number.
pub fn segment_type_from_u32(c: u32) -> (r: SegmentType)
    ensures
        r == spec_segment_type(c),
{
    match c {
        0 => SegmentType::Null,
        1 => SegmentType::Load,
        2 => SegmentType::Dynamic,
        3 => SegmentType::Interpreter,
        4 => SegmentType::Note,
        5 => SegmentType::Shlib,
        6 => SegmentType::ProgramHeader,
        7 => SegmentType::ThreadLocals,
        _ => SegmentType::Other(c),
    }
}

/// The section type with number `c`.
pub open spec fn spec_section_type(c: u32) -> SectionType {
    match c {
        0 => SectionType::Null,
        1 => SectionType::Progbits,
        2 => SectionType::Symtab,
        3 => SectionType::Strtab,
        4 => SectionType::Rela,
        5 => SectionType::Hash,
        6 => SectionType::Dynamic,
        7 => SectionType::Note,
        8 => SectionType::Nobits,
        9 => SectionType::Rel,
        10 => SectionType::Shlib,
        11 => SectionType::Dynsym,
        14 => SectionType::InitArray,
        15 => SectionType::FiniArray,
        16 => SectionType::PreinitArray,
        17 => SectionType::Group,
        18 => SectionType::SymtabShndx,
        _ => SectionType::Other(c),
    }
}

/// Decodes a section type number.
pub fn section_type_from_u32(c: u32) -> (r: SectionType)
    ensures
        r == spec_section_type(c),
{
    match c {
        0 => SectionType::Null,
        1 => SectionType::Progbits,
        2 => SectionType::Symtab,
        3 => SectionType::Strtab,
        4 => SectionType::Rela,
        5 => SectionType::Hash,
        6 => SectionType::Dynamic,
        7 => SectionType::Note,
        8 => SectionType::Nobits,
        9 => SectionType::Rel,
        10 => SectionType::Shlib,
        11 => SectionType::Dynsym,
        14 => SectionType::InitArray,
        15 => SectionType::FiniArray,
        16 => SectionType::PreinitArray,
        17 => SectionType::Group,
        18 => SectionType::SymtabShndx,
        _ => SectionType::Other(c),
    }
}

/// The relocation type with number `c`.
pub open spec fn spec_relocation_type(c: u32) -> RelocationType {
    match c {
        0 => RelocationType::NONE,
        1 => RelocationType::B64,
        2 => RelocationType::PC32,
        3 => RelocationType::GOT32,
        4 => RelocationType::PLT32,
        5 => RelocationType::COPY,
        6 => RelocationType::GlobDat,
        7 => RelocationType::JumpSlot,
        8 => RelocationType::RELATIVE,
        9 => RelocationType::GOTPCREL,
        10 => RelocationType::B32,
        11 => RelocationType::B32S,
        12 => RelocationType::B16,
        13 => RelocationType::PC16,
        14 => RelocationType::B8,
        15 => RelocationType::PC8,
        24 => RelocationType::PC64,
        25 => RelocationType::GOTOFF64,
        26 => RelocationType::GOTPC32,
        32 => RelocationType::SIZE32,
        33 => RelocationType::SIZE64,
        _ => RelocationType::Other(c),
    }
}

/// Decodes a relocation type number.
pub fn relocation_type_from_u32(c: u32) -> (r: RelocationType)
    ensures
        r == spec_relocation_type(c),
{
    match c {
        0 => RelocationType::NONE,
        1 => RelocationType::B64,
        2 => RelocationType::PC32,
        3 => RelocationType::GOT32,
        4 => RelocationType::PLT32,
        5 => RelocationType::COPY,
        6 => RelocationType::GlobDat,
        7 => RelocationType::JumpSlot,
        8 => RelocationType::RELATIVE,
        9 => RelocationType::GOTPCREL,
        10 => RelocationType::B32,
        11 => RelocationType::B32S,
        12 => RelocationType::B16,
        13 => RelocationType::PC16,
        14 => RelocationType::B8,
        15 => RelocationType::PC8,
        24 => RelocationType::PC64,
        25 => RelocationType::GOTOFF64,
        26 => RelocationType::GOTPC32,
        32 => RelocationType::SIZE32,
        33 => RelocationType::SIZE64,
        _ => RelocationType::Other(c),
    }
}

/// The number of a relocation type.
pub open spec fn spec_relocation_number(t: RelocationType) -> u32 {
    match t {
        RelocationType::NONE => 0,
        RelocationType::B64 => 1,
        RelocationType::PC32 => 2,
        RelocationType::GOT32 => 3,
        RelocationType::PLT32 => 4,
        RelocationType::COPY => 5,
        RelocationType::GlobDat => 6,
        RelocationType::JumpSlot => 7,
        RelocationType::RELATIVE => 8,
        RelocationType::GOTPCREL => 9,
        RelocationType::B32 => 10,
        RelocationType::B32S => 11,
        RelocationType::B16 => 12,
        RelocationType::PC16 => 13,
        RelocationType::B8 => 14,
        RelocationType::PC8 => 15,
        RelocationType::PC64 => 24,
        RelocationType::GOTOFF64 => 25,
        RelocationType::GOTPC32 => 26,
        RelocationType::SIZE32 => 32,
        RelocationType::SIZE64 => 33,
        RelocationType::Other(c) => c,
    }
}

impl RelocationType {
    /// The number of the relocation type.
    pub fn number(&self) -> (r: u32)
        ensures
            r == spec_relocation_number(*self),
    {
        match self {
            RelocationType::NONE => 0,
            RelocationType::B64 => 1,
            RelocationType::PC32 => 2,
            RelocationType::GOT32 => 3,
            RelocationType::PLT32 => 4,
            RelocationType::COPY => 5,
            RelocationType::GlobDat => 6,
            RelocationType::JumpSlot => 7,
            RelocationType::RELATIVE => 8,
            RelocationType::GOTPCREL => 9,
            RelocationType::B32 => 10,
            RelocationType::B32S => 11,
            RelocationType::B16 => 12,
            RelocationType::PC16 => 13,
            RelocationType::B8 => 14,
            RelocationType::PC8 => 15,
            RelocationType::PC64 => 24,
            RelocationType::GOTOFF64 => 25,
            RelocationType::GOTPC32 => 26,
            RelocationType::SIZE32 => 32,
            RelocationType::SIZE64 => 33,
            RelocationType::Other(c) => *c,
        }
    }
}

/// The dynamic entry tag with number `c`.
pub open spec fn spec_dynamic_entry_type(c: u64) -> DynamicEntryType {
    match c {
        0 => DynamicEntryType::Null,
        1 => DynamicEntryType::Needed,
        2 => DynamicEntryType::PLTRelSize,
        3 => DynamicEntryType::PLTGOT,
        4 => DynamicEntryType::Hash,
        5 => DynamicEntryType::StringTable,
        6 => DynamicEntryType::SymbolTable,
        7 => DynamicEntryType::Rela,
        8 => DynamicEntryType::RelaSize,
        9 => DynamicEntryType::RelaEntry,
        10 => DynamicEntryType::StringSize,
        11 => DynamicEntryType::SymbolEntry,
        12 => DynamicEntryType::Init,
        13 => DynamicEntryType::Fini,
        14 => DynamicEntryType::SONAME,
        15 => DynamicEntryType::RPATH,
        16 => DynamicEntryType::Symbolic,
        17 => DynamicEntryType::Rel,
        18 => DynamicEntryType::RelSize,
        19 => DynamicEntryType::RelEntry,
        20 => DynamicEntryType::PLTRel,
        21 => DynamicEntryType::Debug,
        22 => DynamicEntryType::TextRel,
        23 => DynamicEntryType::JumpRel,
        24 => DynamicEntryType::BindNow,
        25 => DynamicEntryType::InitArray,
        26 => DynamicEntryType::FiniArray,
        27 => DynamicEntryType::InitArraySize,
        28 => DynamicEntryType::FiniArraySize,
        29 => DynamicEntryType::RunPath,
        30 => DynamicEntryType::Flags,
        31 => DynamicEntryType::Encoding,
        32 => DynamicEntryType::PreInitArray,
        33 => DynamicEntryType::PreInitArraySize,
        _ => DynamicEntryType::Other(c),
    }
}

/// Decodes a dynamic entry tag.
pub fn dynamic_entry_type_from_u64(c: u64) -> (r: DynamicEntryType)
    ensures
        r == spec_dynamic_entry_type(c),
{
    match c {
        0 => DynamicEntryType::Null,
        1 => DynamicEntryType::Needed,
        2 => DynamicEntryType::PLTRelSize,
        3 => DynamicEntryType::PLTGOT,
        4 => DynamicEntryType::Hash,
        5 => DynamicEntryType::StringTable,
        6 => DynamicEntryType::SymbolTable,
        7 => DynamicEntryType::Rela,
        8 => DynamicEntryType::RelaSize,
        9 => DynamicEntryType::RelaEntry,
        10 => DynamicEntryType::StringSize,
        11 => DynamicEntryType::SymbolEntry,
        12 => DynamicEntryType::Init,
        13 => DynamicEntryType::Fini,
        14 => DynamicEntryType::SONAME,
        15 => DynamicEntryType::RPATH,
        16 => DynamicEntryType::Symbolic,
        17 => DynamicEntryType::Rel,
        18 => DynamicEntryType::RelSize,
        19 => DynamicEntryType::RelEntry,
        20 => DynamicEntryType::PLTRel,
        21 => DynamicEntryType::Debug,
        22 => DynamicEntryType::TextRel,
        23 => DynamicEntryType::JumpRel,
        24 => DynamicEntryType::BindNow,
        25 => DynamicEntryType::InitArray,
        26 => DynamicEntryType::FiniArray,
        27 => DynamicEntryType::InitArraySize,
        28 => DynamicEntryType::FiniArraySize,
        29 => DynamicEntryType::RunPath,
        30 => DynamicEntryType::Flags,
        31 => DynamicEntryType::Encoding,
        32 => DynamicEntryType::PreInitArray,
        33 => DynamicEntryType::PreInitArraySize,
        _ => DynamicEntryType::Other(c),
    }
}

// ---------------------------------------------------------------------------
// The numbers of the decoded types
// ---------------------------------------------------------------------------

/// The ELF number (`p_type`) of a segment type.
pub open spec fn segment_type_number(t: SegmentType) -> u32 {
    match t {
        SegmentType::Null => 0,
        SegmentType::Load => 1,
        SegmentType::Dynamic => 2,
        SegmentType::Interpreter => 3,
        SegmentType::Note => 4,
        SegmentType::Shlib => 5,
        SegmentType::ProgramHeader => 6,
        SegmentType::ThreadLocals => 7,
        SegmentType::Other(c) => c,
    }
}

/// Segment types keep their ELF numbers: the type decoded from a number has
/// that number, and each known type is decoded from its own number.
pub proof fn lemma_segment_type_numbers(c: u32, t: SegmentType)
    ensures
        segment_type_number(spec_segment_type(c)) == c,
        !(t is Other) ==> spec_segment_type(segment_type_number(t)) == t,
{
}

/// The ELF number (`sh_type`) of a section type.
pub open spec fn section_type_number(t: SectionType) -> u32 {
    match t {
        SectionType::Null => 0,
        SectionType::Progbits => 1,
        SectionType::Symtab => 2,
        SectionType::Strtab => 3,
        SectionType::Rela => 4,
        SectionType::Hash => 5,
        SectionType::Dynamic => 6,
        SectionType::Note => 7,
        SectionType::Nobits => 8,
        SectionType::Rel => 9,
        SectionType::Shlib => 10,
        SectionType::Dynsym => 11,
        SectionType::InitArray => 14,
        SectionType::FiniArray => 15,
        SectionType::PreinitArray => 16,
        SectionType::Group => 17,
        SectionType::SymtabShndx => 18,
        SectionType::Other(c) => c,
    }
}

/// Section types keep their ELF numbers: the type decoded from a number has
/// that number, and each known type is decoded from its own number.
pub proof fn lemma_section_type_numbers(c: u32, t: SectionType)
    ensures
        section_type_number(spec_section_type(c)) == c,
        !(t is Other) ==> spec_section_type(section_type_number(t)) == t,
{
}

/// Relocation types keep their x86-64 numbers: the type decoded from a
/// number has that number, and each known type is decoded from its own
/// number.
pub proof fn lemma_relocation_type_numbers(c: u32, t: RelocationType)
    ensures
        spec_relocation_number(spec_relocation_type(c)) == c,
        !(t is Other) ==> spec_relocation_type(spec_relocation_number(t)) == t,
{
}

/// The ELF number (`d_tag`) of a dynamic entry tag.
pub open spec fn dynamic_entry_type_number(t: DynamicEntryType) -> u64 {
    match t {
        DynamicEntryType::Null => 0,
        DynamicEntryType::Needed => 1,
        DynamicEntryType::PLTRelSize => 2,
        DynamicEntryType::PLTGOT => 3,
        DynamicEntryType::Hash => 4,
        DynamicEntryType::StringTable => 5,
        DynamicEntryType::SymbolTable => 6,
        DynamicEntryType::Rela => 7,
        DynamicEntryType::RelaSize => 8,
        DynamicEntryType::RelaEntry => 9,
        DynamicEntryType::StringSize => 10,
        DynamicEntryType::SymbolEntry => 11,
        DynamicEntryType::Init => 12,
        DynamicEntryType::Fini => 13,
        DynamicEntryType::SONAME => 14,
        DynamicEntryType::RPATH => 15,
        DynamicEntryType::Symbolic => 16,
        DynamicEntryType::Rel => 17,
        DynamicEntryType::RelSize => 18,
        DynamicEntryType::RelEntry => 19,
        DynamicEntryType::PLTRel => 20,
        DynamicEntryType::Debug => 21,
        DynamicEntryType::TextRel => 22,
        DynamicEntryType::JumpRel => 23,
        DynamicEntryType::BindNow => 24,
        DynamicEntryType::InitArray => 25,
        DynamicEntryType::FiniArray => 26,
        DynamicEntryType::InitArraySize => 27,
        DynamicEntryType::FiniArraySize => 28,
        DynamicEntryType::RunPath => 29,
        DynamicEntryType::Flags => 30,
        DynamicEntryType::Encoding => 31,
        DynamicEntryType::PreInitArray => 32,
        DynamicEntryType::PreInitArraySize => 33,
        DynamicEntryType::Other(c) => c,
    }
}

/// Dynamic entry tags keep their ELF numbers: the tag decoded from a number
/// has that number, and each known tag is decoded from its own number.
pub proof fn lemma_dynamic_entry_type_numbers(c: u64, t: DynamicEntryType)
    ensures
        dynamic_entry_type_number(spec_dynamic_entry_type(c)) == c,
        !(t is Other) ==> spec_dynamic_entry_type(dynamic_entry_type_number(t)) == t,
{
}

/// The ELF number (`e_type`) of a file type; `Unknown` stands for number 0.
pub open spec fn file_type_number(t: FileType) -> u16 {
    match t {
        FileType::Unknown => 0,
        FileType::Relocatable => 1,
        FileType::Executable => 2,
        FileType::SharedObject => 3,
        FileType::CoreFile => 4,
    }
}

/// File types keep their ELF numbers: numbers up to 4 are decoded into the
/// type with that number, larger ones into `Unknown`, and each type is
/// decoded from its own number.
pub proof fn lemma_file_type_numbers(c: u16, t: FileType)
    ensures
        c <= 4 ==> file_type_number(spec_file_type(c)) == c,
        c > 4 ==> spec_file_type(c) == FileType::Unknown,
        spec_file_type(file_type_number(t)) == t,
{
}

// ---------------------------------------------------------------------------
// The file header
// ---------------------------------------------------------------------------

/// Whether the file starts with the ELF magic number.
pub open spec fn magic_ok(b: Seq<u8>) -> bool {
    b[0] == 0x7f && b[1] == 0x45 && b[2] == 0x4c && b[3] == 0x46
}

/// Whether the header fields are stored most significant byte first.
pub open spec fn header_flip(b: Seq<u8>) -> bool {
    b[5] == 2
}

/// The header field of `size` bytes at `offset`, in the file's byte order.
pub open spec fn header_field(b: Seq<u8>, offset: int, size: int) -> nat {
    field_value(b, offset, size, header_flip(b))
}

/// The first check, after the magic number, that the header fails, if any.
pub open spec fn spec_elf_check(b: Seq<u8>) -> Option<ElfParseError> {
    if b[4] != 2 {
        Some(ElfParseError::Bits32)
    } else if b[6] != 1 {
        Some(ElfParseError::Version(b[6] as u32))
    } else if b[7] != 0 {
        Some(ElfParseError::TargetOS(b[7]))
    } else if header_field(b, 0x10, 2) != 3 {
        Some(ElfParseError::FileType(spec_file_type(header_field(b, 0x10, 2) as u16)))
    } else if header_field(b, 0x12, 2) != 0x3e {
        Some(ElfParseError::Machine(header_field(b, 0x12, 2) as u16))
    } else if header_field(b, 0x14, 4) != 1 {
        Some(ElfParseError::Version(header_field(b, 0x14, 4) as u32))
    } else if header_field(b, 0x20, 8) != 0x40 {
        Some(ElfParseError::PHOffset(header_field(b, 0x20, 8) as u64))
    } else if header_field(b, 0x34, 2) != 0x40 {
        Some(ElfParseError::HeaderSize(header_field(b, 0x34, 2) as u16))
    } else if header_field(b, 0x36, 2) != 0x38 {
        Some(ElfParseError::PHSize(header_field(b, 0x36, 2) as u16))
    } else if header_field(b, 0x3a, 2) != 0x40 {
        Some(ElfParseError::SHSize(header_field(b, 0x3a, 2) as u16))
    } else {
        None
    }
}

/// Whether `e` holds the header fields of the file `b`.
pub open spec fn elf_matches(e: Elf64, b: Seq<u8>) -> bool {
    &&& e.ident.magic@ == b.subrange(0, 4)
    &&& e.ident.bits == (if b[4] == 2 { Bits::Bit64 } else { Bits::Bit32 })
    &&& e.ident.endian == (if b[5] == 2 { Endian::Big } else { Endian::Little })
    &&& e.ident.version == b[6]
    &&& e.ident.target_os == b[7]
    &&& e.ident.abi_version == b[8]
    &&& e.ident.padding@ == b.subrange(9, 16)
    &&& e.f_type == spec_file_type(header_field(b, 0x10, 2) as u16)
    &&& e.machine == header_field(b, 0x12, 2)
    &&& e.version == header_field(b, 0x14, 4)
    &&& e.entry == header_field(b, 0x18, 8)
    &&& e.ph_offset == header_field(b, 0x20, 8)
    &&& e.sh_offset == header_field(b, 0x28, 8)
    &&& e.flags == header_field(b, 0x30, 4)
    &&& e.hdr_size == header_field(b, 0x34, 2)
    &&& e.ph_entry_size == header_field(b, 0x36, 2)
    &&& e.ph_entry_count == header_field(b, 0x38, 2)
    &&& e.sh_entry_size == header_field(b, 0x3a, 2)
    &&& e.sh_entry_count == header_field(b, 0x3c, 2)
    &&& e.sh_name_index == header_field(b, 0x3e, 2)
}

impl Elf64 {
    /// Parses the header of the ELF file `binary` and checks that it is a
    /// 64-bit x86-64 shared object for no particular OS, with the standard
    /// header and table entry sizes.
    ///
    /// The checks are made in this order: magic number, word size,
    /// identification version, target OS, file type, machine, version,
    /// program header offset, header size, program header entry size, section
    /// header entry size; the first that fails gives the error.
    /// An identification byte order other than big-endian (2) is read as
    /// little-endian.
    pub fn new(binary: &[u8]) -> (r: Result<Self, ElfParseError>)
        requires
            binary@.len() >= ELF_HEADER_SIZE,
        ensures
            !magic_ok(binary@) ==> (r matches Err(ElfParseError::Magic(m)) && m@ == binary@.subrange(0, 4)),
            magic_ok(binary@) && spec_elf_check(binary@) is Some ==> r == Err::<Self, ElfParseError>(
                spec_elf_check(binary@)->0,
            ),
            magic_ok(binary@) && spec_elf_check(binary@) is None ==> (r matches Ok(e) && elf_matches(e, binary@)),
    {
        let ghost b = binary@;
        let magic = [binary[0], binary[1], binary[2], binary[3]];
        if binary[0] != 0x7f || binary[1] != 0x45 || binary[2] != 0x4c || binary[3] != 0x46 {
            assert(magic@ =~= b.subrange(0, 4));
            return Err(ElfParseError::Magic(magic));
        }
        if binary[4] != 2 {
            return Err(ElfParseError::Bits32);
        }
        if binary[6] != 1 {
            return Err(ElfParseError::Version(binary[6] as u32));
        }
        if binary[7] != 0 {
            return Err(ElfParseError::TargetOS(binary[7]));
        }
        let flip_bytes = binary[5] == 2;
        let endian = if flip_bytes {
            Endian::Big
        } else {
            Endian::Little
        };
        let padding = [
            binary[9],
            binary[10],
            binary[11],
            binary[12],
            binary[13],
            binary[14],
            binary[15],
        ];
        assert(padding@ =~= b.subrange(9, 16));
        assert(magic@ =~= b.subrange(0, 4));
        let ident = Ident {
            magic,
            bits: Bits::Bit64,
            endian,
            version: binary[6],
            target_os: binary[7],
            abi_version: binary[8],
            padding,
        };
        let f_type_code = read_u16(binary, 0x10, flip_bytes);
        let machine = read_u16(binary, 0x12, flip_bytes);
        let version = read_u32(binary, 0x14, flip_bytes);
        let entry = read_u64(binary, 0x18, flip_bytes);
        let ph_offset = read_u64(binary, 0x20, flip_bytes);
        let sh_offset = read_u64(binary, 0x28, flip_bytes);
        let flags = read_u32(binary, 0x30, flip_bytes);
        let hdr_size = read_u16(binary, 0x34, flip_bytes);
        let ph_entry_size = read_u16(binary, 0x36, flip_bytes);
        let ph_entry_count = read_u16(binary, 0x38, flip_bytes);
        let sh_entry_size = read_u16(binary, 0x3A, flip_bytes);
        let sh_entry_count = read_u16(binary, 0x3C, flip_bytes);
        let sh_name_index = read_u16(binary, 0x3E, flip_bytes);
        let f_type = file_type_from_u16(f_type_code);
        let elf = Elf64 {
            ident,
            f_type,
            machine,
            version,
            entry,
            ph_offset,
            sh_offset,
            flags,
            hdr_size,
            ph_entry_size,
            ph_entry_count,
            sh_entry_size,
            sh_entry_count,
            sh_name_index,
        };
        if f_type_code != 3 {
            return Err(ElfParseError::FileType(elf.f_type));
        }
        if elf.machine != 0x3E {
            return Err(ElfParseError::Machine(elf.machine));
        }
        if elf.version != 1 {
            return Err(ElfParseError::Version(elf.version));
        }
        if elf.ph_offset != 0x40 {
            return Err(ElfParseError::PHOffset(elf.ph_offset));
        }
        if elf.hdr_size != 0x40 {
            return Err(ElfParseError::HeaderSize(elf.hdr_size));
        }
        if elf.ph_entry_size != 0x38 {
            return Err(ElfParseError::PHSize(elf.ph_entry_size));
        }
        if elf.sh_entry_size != 0x40 {
            return Err(ElfParseError::SHSize(elf.sh_entry_size));
        }
        Ok(elf)
    }
}

// ---------------------------------------------------------------------------
// The tables
// ---------------------------------------------------------------------------

/// Whether `h` is the program header stored at byte `at` of `b`.
pub open spec fn ph_matches(h: ProgramHeader, b: Seq<u8>, at: int) -> bool {
    &&& h.segment_type == spec_segment_type(le_at(b, at, 4) as u32)
    &&& h.flags == le_at(b, at + 4, 4)
    &&& h.offset == le_at(b, at + 8, 8)
    &&& h.vaddr == le_at(b, at + 16, 8)
    &&& h.paddr == le_at(b, at + 24, 8)
    &&& h.file_size == le_at(b, at + 32, 8)
    &&& h.mem_size == le_at(b, at + 40, 8)
    &&& h.align == le_at(b, at + 48, 8)
}

/// Whether `h` is the section header stored at byte `at` of `b`.
pub open spec fn sh_matches(h: SectionHeader, b: Seq<u8>, at: int) -> bool {
    &&& h.name == le_at(b, at, 4)
    &&& h.section_type == spec_section_type(le_at(b, at + 4, 4) as u32)
    &&& h.flags == le_at(b, at + 8, 8)
    &&& h.vaddr == le_at(b, at + 16, 8)
    &&& h.offset == le_at(b, at + 24, 8)
    &&& h.size == le_at(b, at + 32, 8)
    &&& h.link_index == le_at(b, at + 40, 4)
    &&& h.info == le_at(b, at + 44, 4)
    &&& h.addr_align == le_at(b, at + 48, 8)
    &&& h.entry_size == le_at(b, at + 56, 8)
}

/// Whether `e` is the relocation with addend stored at byte `at` of `b`.
pub open spec fn rela_matches(e: RELAEntry, b: Seq<u8>, at: int) -> bool {
    &&& e.offset == le_at(b, at, 8)
    &&& e.relocation_type == spec_relocation_type(le_at(b, at + 8, 4) as u32)
    &&& e.symbol_index == le_at(b, at + 12, 4)
    &&& e.addend == le_at(b, at + 16, 8)
}

/// Whether `e` is the relocation without addend stored at byte `at` of `b`.
pub open spec fn rel_matches(e: RELEntry, b: Seq<u8>, at: int) -> bool {
    &&& e.offset == le_at(b, at, 8)
    &&& e.relocation_type == spec_relocation_type(le_at(b, at + 8, 4) as u32)
    &&& e.symbol_index == le_at(b, at + 12, 4)
}

/// Whether `e` is the dynamic section entry stored at byte `at` of `b`.
pub open spec fn dyn_matches(e: DynamicSectionEntry, b: Seq<u8>, at: int) -> bool {
    &&& e.d_tag == spec_dynamic_entry_type(le_at(b, at, 8) as u64)
    &&& e.d_val == le_at(b, at + 8, 8)
}

/// Reads the program header at byte `at`.
pub fn read_program_header(binary: &[u8], at: usize) -> (r: ProgramHeader)
    requires
        at + PROGRAM_HEADER_SIZE <= binary@.len(),
    ensures
        ph_matches(r, binary@, at as int),
{
    let _len = binary.len();
    let t = read_u32(binary, at, false);
    ProgramHeader {
        segment_type: segment_type_from_u32(t),
        flags: read_u32(binary, at + 4, false),
        offset: read_u64(binary, at + 8, false),
        vaddr: read_u64(binary, at + 16, false),
        paddr: read_u64(binary, at + 24, false),
        file_size: read_u64(binary, at + 32, false),
        mem_size: read_u64(binary, at + 40, false),
        align: read_u64(binary, at + 48, false),
    }
}

/// Reads the section header at byte `at`.
pub fn read_section_header(binary: &[u8], at: usize) -> (r: SectionHeader)
    requires
        at + SECTION_HEADER_SIZE <= binary@.len(),
    ensures
        sh_matches(r, binary@, at as int),
{
    let _len = binary.len();
    let t = read_u32(binary, at + 4, false);
    SectionHeader {
        name: read_u32(binary, at, false),
        section_type: section_type_from_u32(t),
        flags: read_u64(binary, at + 8, false),
        vaddr: read_u64(binary, at + 16, false),
        offset: read_u64(binary, at + 24, false),
        size: read_u64(binary, at + 32, false),
        link_index: read_u32(binary, at + 40, false),
        info: read_u32(binary, at + 44, false),
        addr_align: read_u64(binary, at + 48, false),
        entry_size: read_u64(binary, at + 56, false),
    }
}

/// Reads the relocation with addend at byte `at`.
pub fn read_rela_entry(binary: &[u8], at: usize) -> (r: RELAEntry)
    requires
        at + RELA_ENTRY_SIZE <= binary@.len(),
    ensures
        rela_matches(r, binary@, at as int),
{
    let _len = binary.len();
    let t = read_u32(binary, at + 8, false);
    RELAEntry {
        offset: read_u64(binary, at, false),
        relocation_type: relocation_type_from_u32(t),
        symbol_index: read_u32(binary, at + 12, false),
        addend: read_u64(binary, at + 16, false),
    }
}

/// Reads the relocation without addend at byte `at`.
pub fn read_rel_entry(binary: &[u8], at: usize) -> (r: RELEntry)
    requires
        at + REL_ENTRY_SIZE <= binary@.len(),
    ensures
        rel_matches(r, binary@, at as int),
{
    let _len = binary.len();
    let t = read_u32(binary, at + 8, false);
    RELEntry {
        offset: read_u64(binary, at, false),
        relocation_type: relocation_type_from_u32(t),
        symbol_index: read_u32(binary, at + 12, false),
    }
}

/// Reads the dynamic section entry at byte `at`.
pub fn read_dynamic_entry(binary: &[u8], at: usize) -> (r: DynamicSectionEntry)
    requires
        at + DYNAMIC_ENTRY_SIZE <= binary@.len(),
    ensures
        dyn_matches(r, binary@, at as int),
{
    let _len = binary.len();
    let t = read_u64(binary, at, false);
    DynamicSectionEntry { d_tag: dynamic_entry_type_from_u64(t), d_val: read_u64(binary, at + 8, false) }
}

/// Reads the `count` relocations with addend that start at byte `offset`.
pub fn read_rela_entries(binary: &[u8], offset: usize, count: usize) -> (r: Vec<RELAEntry>)
    requires
        offset + count * RELA_ENTRY_SIZE <= binary@.len(),
    ensures
        r@.len() == count,
        forall|i: int| 0 <= i < count ==> rela_matches(#[trigger] r@[i], binary@, offset + i * 24),
{
    let _len = binary.len();
    let mut v: Vec<RELAEntry> = Vec::new();
    let mut i: usize = 0;
    while i < count
        invariant
            offset + count * 24 <= binary@.len(),
            binary@.len() <= usize::MAX,
            i <= count,
            v@.len() == i,
            forall|j: int| 0 <= j < i ==> rela_matches(#[trigger] v@[j], binary@, offset + j * 24),
        decreases count - i,
    {
        proof {
            assert(offset + i * 24 + 24 <= offset + count * 24) by (nonlinear_arith)
                requires i < count;
        }
        let e = read_rela_entry(binary, offset + i * 24);
        v.push(e);
        i = i + 1;
    }
    v
}

impl Elf64 {
    /// The program header table of the file `binary` whose header is `self`.
    pub fn program_headers(&self, binary: &[u8]) -> (r: Vec<ProgramHeader>)
        requires
            self.ph_offset + self.ph_entry_count * PROGRAM_HEADER_SIZE <= binary@.len(),
        ensures
            r@.len() == self.ph_entry_count,
            forall|i: int|
                0 <= i < self.ph_entry_count ==> ph_matches(
                    #[trigger] r@[i],
                    binary@,
                    self.ph_offset + i * 56,
                ),
    {
        let _len = binary.len();
        let offset = self.ph_offset as usize;
        let count = self.ph_entry_count as usize;
        let mut v: Vec<ProgramHeader> = Vec::new();
        let mut i: usize = 0;
        while i < count
            invariant
                offset == self.ph_offset,
                count == self.ph_entry_count,
                offset + count * 56 <= binary@.len(),
                binary@.len() <= usize::MAX,
                i <= count,
                v@.len() == i,
                forall|j: int| 0 <= j < i ==> ph_matches(#[trigger] v@[j], binary@, offset + j * 56),
            decreases count - i,
        {
            proof {
                assert(offset + i * 56 + 56 <= offset + count * 56) by (nonlinear_arith)
                    requires i < count;
            }
            let h = read_program_header(binary, offset + i * 56);
            v.push(h);
            i = i + 1;
        }
        v
    }

    /// The section header table of the file `binary` whose header is `self`.
    pub fn section_headers(&self, binary: &[u8]) -> (r: Vec<SectionHeader>)
        requires
            self.sh_offset + self.sh_entry_count * SECTION_HEADER_SIZE <= binary@.len(),
        ensures
            r@.len() == self.sh_entry_count,
            forall|i: int|
                0 <= i < self.sh_entry_count ==> sh_matches(
                    #[trigger] r@[i],
                    binary@,
                    self.sh_offset + i * 64,
                ),
    {
        let _len = binary.len();
        let offset = self.sh_offset as usize;
        let count = self.sh_entry_count as usize;
        let mut v: Vec<SectionHeader> = Vec::new();
        let mut i: usize = 0;
        while i < count
            invariant
                offset == self.sh_offset,
                count == self.sh_entry_count,
                offset + count * 64 <= binary@.len(),
                binary@.len() <= usize::MAX,
                i <= count,
                v@.len() == i,
                forall|j: int| 0 <= j < i ==> sh_matches(#[trigger] v@[j], binary@, offset + j * 64),
            decreases count - i,
        {
            proof {
                assert(offset + i * 64 + 64 <= offset + count * 64) by (nonlinear_arith)
                    requires i < count;
            }
            let h = read_section_header(binary, offset + i * 64);
            v.push(h);
            i = i + 1;
        }
        v
    }
}

} // verus!
