//! Under the x86 architecture, the GDT (Global Descriptor Table) is a table of
//! structures that describe the segments of memory.
//!
//! An [`Entry`] packs four fields into one 64-bit word:
//! the limit (bits 0..16 and 48..52), the base (bits 16..40 and 56..64),
//! the access byte (bits 40..48, whose top bit is the present bit) and the
//! flags (bits 52..56). These four fields cover all 64 bits, so an entry is
//! exactly determined by them.

use vstd::prelude::*;

verus! {

/// The offset of the kernel code segment.
pub const KERNEL_CS: usize = 8;
/// The offset of the kernel data segment.
pub const KERNEL_DS: usize = 16;
/// The offset of the user code segment.
pub const USER_CS: usize = 24;
/// The offset of the user data segment (32 bits).
pub const USER_DS: usize = 32;
/// The offset of the user data segment (64 bits).
pub const USER_CS64: usize = 40;
/// The offset of the Task State Segment (TSS).
pub const TSS_OFFSET: usize = 48;
/// The offset of Thread Local Storage (TLS) entries.
pub const TLS_OFFSET: usize = 64;

/// The number of entries of the boot GDT.
pub const INIT_GDT_LEN: usize = 11;

/// The base address stored in the raw entry word `v`.
pub open spec fn spec_base(v: u64) -> u64 {
    ((v >> 16u64) & 0xffffffu64) | ((v >> 32u64) & 0xff000000u64)
}

/// The 20-bit limit stored in the raw entry word `v`.
pub open spec fn spec_limit(v: u64) -> u64 {
    (v & 0xffffu64) | (((v >> 48u64) & 0xfu64) << 16u64)
}

/// The access byte stored in the raw entry word `v`.
pub open spec fn spec_access_byte(v: u64) -> u64 {
    (v >> 40u64) & 0xffu64
}

/// The 4-bit flags stored in the raw entry word `v`.
pub open spec fn spec_flags(v: u64) -> u64 {
    (v >> 52u64) & 0x0fu64
}

/// Whether the present bit (bit 47) of the raw entry word `v` is set.
pub open spec fn spec_present(v: u64) -> bool {
    (v >> 47u64) & 1u64 != 0
}

/// A GDT entry.
#[derive(Clone, Copy)]
pub struct Entry(pub u64);

impl Entry {
    /// The base address of the entry.
    pub open spec fn base(self) -> u64 {
        spec_base(self.0)
    }

    /// The 20-bit limit of the entry.
    pub open spec fn limit(self) -> u64 {
        spec_limit(self.0)
    }

    /// The access byte of the entry.
    pub open spec fn access_byte(self) -> u64 {
        spec_access_byte(self.0)
    }

    /// The 4-bit flags of the entry.
    pub open spec fn flags(self) -> u64 {
        spec_flags(self.0)
    }

    /// Whether the entry is present.
    pub open spec fn present(self) -> bool {
        spec_present(self.0)
    }

    /// Creates a new entry with the given information.
    pub fn new(base: u32, limit: u32, access_byte: u8, flags: u8) -> (r: Self)
        ensures
            r.base() == base,
            r.limit() == limit & 0xfffff,
            r.access_byte() == access_byte,
            r.flags() == flags & 0x0f,
    {
        let mut ent = Self(0);
        proof {
            lemma_zero_fields();
        }
        ent.set_base(base);
        ent.set_limit(limit);
        ent.set_access_byte(access_byte);
        ent.set_flags(flags);
        ent
    }

    /// Creates a long mode entry, spanning two regular entries.
    ///
    /// The first entry holds the lower 32 bits of `base`, the second one holds
    /// the upper 32 bits of `base` as its raw value.
    pub fn new64(base: u64, limit: u32, access_byte: u8, flags: u8) -> (r: [Self; 2])
        ensures
            r[0].base() == base % 0x1_0000_0000,
            r[0].limit() == limit & 0xfffff,
            r[0].access_byte() == access_byte,
            r[0].flags() == flags & 0x0f,
            r[1].0 == base / 0x1_0000_0000,
    {
        proof {
            lemma_split_u64(base);
        }
        let low = (base & 0xffffffff) as u32;
        let high = (base >> 32) & 0xffffffff;
        [Self::new(low, limit, access_byte, flags), Self(high)]
    }

    /// Returns the entry's base address.
    pub fn get_base(&self) -> (r: u32)
        ensures
            r == self.base(),
    {
        let v = self.0;
        proof {
            lemma_field_bounds(v);
        }
        (((v >> 16) & 0xffffff) | ((v >> 32) & 0xff000000)) as u32
    }

    /// Sets the entry's base address. The other fields are left unchanged.
    pub fn set_base(&mut self, base: u32)
        ensures
            final(self).base() == base,
            final(self).limit() == old(self).limit(),
            final(self).access_byte() == old(self).access_byte(),
            final(self).flags() == old(self).flags(),
    {
        let v = self.0;
        let b = base as u64;
        proof {
            lemma_set_base(v, b);
        }
        let mut w = v & !(0xffffffu64 << 16);
        w = w & !(0xffu64 << 56);
        w = w | ((b & 0xffffff) << 16);
        w = w | (((b >> 24) & 0xff) << 56);
        self.0 = w;
    }

    /// Returns the entry's limit.
    pub fn get_limit(&self) -> (r: u32)
        ensures
            r == self.limit(),
    {
        let v = self.0;
        proof {
            lemma_field_bounds(v);
        }
        ((v & 0xffff) | (((v >> 48) & 0xf) << 16)) as u32
    }

    /// Sets the entry's limit.
    ///
    /// If the given limit is more than `pow(2, 20) - 1`, the value is truncated.
    pub fn set_limit(&mut self, limit: u32)
        ensures
            final(self).limit() == limit & 0xfffff,
            final(self).base() == old(self).base(),
            final(self).access_byte() == old(self).access_byte(),
            final(self).flags() == old(self).flags(),
    {
        let v = self.0;
        let l = limit as u64;
        proof {
            lemma_set_limit(v, l);
        }
        let mut w = v & !0xffffu64;
        w = w & !(0xfu64 << 48);
        w = w | (l & 0xffff);
        w = w | (((l >> 16) & 0xf) << 48);
        self.0 = w;
    }

    /// Returns the value of the access byte.
    pub fn get_access_byte(&self) -> (r: u8)
        ensures
            r == self.access_byte(),
    {
        let v = self.0;
        proof {
            lemma_field_bounds(v);
        }
        ((v >> 40) & 0xff) as u8
    }

    /// Sets the value of the access byte. The other fields are left unchanged.
    pub fn set_access_byte(&mut self, byte: u8)
        ensures
            final(self).access_byte() == byte,
            final(self).base() == old(self).base(),
            final(self).limit() == old(self).limit(),
            final(self).flags() == old(self).flags(),
    {
        let v = self.0;
        let a = byte as u64;
        proof {
            lemma_set_access_byte(v, a);
        }
        let w = (v & !(0xffu64 << 40)) | (a << 40);
        self.0 = w;
    }

    /// Returns the flags.
    pub fn get_flags(&self) -> (r: u8)
        ensures
            r == self.flags(),
    {
        let v = self.0;
        proof {
            lemma_field_bounds(v);
        }
        ((v >> 52) & 0x0f) as u8
    }

    /// Sets the flags. Only the lower four bits of `flags` are kept.
    pub fn set_flags(&mut self, flags: u8)
        ensures
            final(self).flags() == flags & 0x0f,
            final(self).base() == old(self).base(),
            final(self).limit() == old(self).limit(),
            final(self).access_byte() == old(self).access_byte(),
    {
        let v = self.0;
        let f = flags as u64;
        proof {
            lemma_set_flags(v, f);
        }
        let w = (v & !(0x0fu64 << 52)) | ((f & 0x0f) << 52);
        self.0 = w;
    }

    /// Tells whether the entry is present.
    pub fn is_present(&self) -> (r: bool)
        ensures
            r == self.present(),
            r == (self.access_byte() & 0x80 != 0),
    {
        let v = self.0;
        proof {
            lemma_present_in_access(v);
        }
        (v >> 47) & 1 != 0
    }

    /// Sets the entry present or not. Only the present bit of the access byte
    /// changes.
    pub fn set_present(&mut self, present: bool)
        ensures
            final(self).present() == present,
            final(self).access_byte() == (if present {
                old(self).access_byte() | 0x80
            } else {
                old(self).access_byte() & 0x7f
            }),
            final(self).base() == old(self).base(),
            final(self).limit() == old(self).limit(),
            final(self).flags() == old(self).flags(),
    {
        let v = self.0;
        proof {
            lemma_set_present(v);
        }
        if present {
            self.0 = v | (1u64 << 47);
        } else {
            self.0 = v & !(1u64 << 47);
        }
    }
}

/// The boot GDT: a null entry, the kernel code and data segments, the user
/// code and data segments (32 bits), the 64-bit user code segment, then
/// empty TSS and TLS entries.
pub fn initial_gdt() -> (r: [Entry; 11])
    ensures
        r[0].0 == 0,
        r[1] == Entry::new_spec(0, 0xffffffff, 0b10011010, 0b1010),
        r[2] == Entry::new_spec(0, 0xffffffff, 0b10010010, 0b1100),
        r[3] == Entry::new_spec(0, 0xffffffff, 0b11111010, 0b1100),
        r[4] == Entry::new_spec(0, 0xffffffff, 0b11110010, 0b1100),
        r[5] == Entry::new_spec(0, 0xffffffff, 0b11111010, 0b1010),
        forall|i: int| 6 <= i < 11 ==> (#[trigger] r[i]).0 == 0,
{
    let e1 = Entry::new(0, 0xffffffff, 0b10011010, 0b1010);
    let e2 = Entry::new(0, 0xffffffff, 0b10010010, 0b1100);
    let e3 = Entry::new(0, 0xffffffff, 0b11111010, 0b1100);
    let e4 = Entry::new(0, 0xffffffff, 0b11110010, 0b1100);
    let e5 = Entry::new(0, 0xffffffff, 0b11111010, 0b1010);
    proof {
        Entry::lemma_new_is_new_spec(e1, 0, 0xffffffff, 0b10011010, 0b1010);
        Entry::lemma_new_is_new_spec(e2, 0, 0xffffffff, 0b10010010, 0b1100);
        Entry::lemma_new_is_new_spec(e3, 0, 0xffffffff, 0b11111010, 0b1100);
        Entry::lemma_new_is_new_spec(e4, 0, 0xffffffff, 0b11110010, 0b1100);
        Entry::lemma_new_is_new_spec(e5, 0, 0xffffffff, 0b11111010, 0b1010);
    }
    [Entry(0), e1, e2, e3, e4, e5, Entry(0), Entry(0), Entry(0), Entry(0), Entry(0)]
}

/// The `size` field of the GDT descriptor: the size of the boot GDT in bytes,
/// minus one.
pub fn gdt_descriptor_size() -> (r: u16)
    ensures
        r == INIT_GDT_LEN * 8 - 1,
{
    (INIT_GDT_LEN * 8 - 1) as u16
}

impl Entry {
    /// The raw word of the entry that has exactly the given fields.
    pub open spec fn from_fields(base: u64, limit: u64, access: u64, flags: u64) -> u64 {
        (limit & 0xffffu64) | ((base & 0xffffffu64) << 16u64) | ((access & 0xffu64) << 40u64)
            | (((limit >> 16u64) & 0xfu64) << 48u64) | ((flags & 0xfu64) << 52u64) | (((base
            >> 24u64) & 0xffu64) << 56u64)
    }

    /// The entry that `new` builds from its arguments.
    pub open spec fn new_spec(base: u64, limit: u64, access: u64, flags: u64) -> Entry {
        Entry(Self::from_fields(base, limit, access, flags))
    }

    /// An entry is exactly determined by its four fields: two entries whose
    /// base, limit, access byte and flags agree are the same entry.
    pub proof fn lemma_fields_determine_entry(a: Entry, b: Entry)
        requires
            a.base() == b.base(),
            a.limit() == b.limit(),
            a.access_byte() == b.access_byte(),
            a.flags() == b.flags(),
        ensures
            a == b,
    {
        lemma_word_from_fields(a.0);
        lemma_word_from_fields(b.0);
    }

    /// `new` builds the entry whose raw word is `from_fields` of its (truncated)
    /// arguments.
    pub proof fn lemma_new_is_new_spec(e: Entry, base: u64, limit: u64, access: u64, flags: u64)
        requires
            base < 0x1_0000_0000,
            limit < 0x1_0000_0000,
            access < 0x100,
            flags < 0x100,
            e.base() == base,
            e.limit() == limit & 0xfffff,
            e.access_byte() == access,
            e.flags() == flags & 0x0f,
        ensures
            e == Entry::new_spec(base, limit, access, flags),
    {
        lemma_word_from_fields(e.0);
        lemma_from_fields_truncation(base, limit, access, flags);
    }
}

/// Every raw word is the word built from its own four fields.
proof fn lemma_word_from_fields(v: u64)
    by (bit_vector)
    ensures
        v == Entry::from_fields(spec_base(v), spec_limit(v), spec_access_byte(v), spec_flags(v)),
{
}

/// `from_fields` only looks at the bits of each argument that the entry holds.
proof fn lemma_from_fields_truncation(base: u64, limit: u64, access: u64, flags: u64)
    by (bit_vector)
    ensures
        Entry::from_fields(base, limit & 0xfffff, access, flags & 0x0f) == Entry::from_fields(
            base,
            limit,
            access,
            flags,
        ),
{
}

proof fn lemma_zero_fields()
    by (bit_vector)
    ensures
        spec_base(0) == 0,
        spec_limit(0) == 0,
        spec_access_byte(0) == 0,
        spec_flags(0) == 0,
{
}

proof fn lemma_field_bounds(v: u64)
    by (bit_vector)
    ensures
        spec_base(v) < 0x1_0000_0000,
        spec_limit(v) < 0x1_0000_0000,
        spec_access_byte(v) < 0x100,
        spec_flags(v) < 0x100,
        ((v >> 16u64) & 0xffffffu64) | ((v >> 32u64) & 0xff000000u64) == spec_base(v),
{
}

proof fn lemma_split_u64(base: u64)
    by (bit_vector)
    ensures
        base & 0xffffffffu64 == base % 0x1_0000_0000,
        (base >> 32u64) & 0xffffffffu64 == base / 0x1_0000_0000,
{
}

proof fn lemma_set_base(v: u64, b: u64)
    by (bit_vector)
    requires
        b < 0x1_0000_0000,
    ensures
        ({
            let w = (((v & !(0xffffffu64 << 16u64)) & !(0xffu64 << 56u64)) | ((b & 0xffffffu64)
                << 16u64)) | (((b >> 24u64) & 0xffu64) << 56u64);
            &&& spec_base(w) == b
            &&& spec_limit(w) == spec_limit(v)
            &&& spec_access_byte(w) == spec_access_byte(v)
            &&& spec_flags(w) == spec_flags(v)
        }),
{
}

proof fn lemma_set_limit(v: u64, l: u64)
    by (bit_vector)
    requires
        l < 0x1_0000_0000,
    ensures
        ({
            let w = (((v & !0xffffu64) & !(0xfu64 << 48u64)) | (l & 0xffffu64)) | (((l >> 16u64)
                & 0xfu64) << 48u64);
            &&& spec_limit(w) == l & 0xfffff
            &&& spec_base(w) == spec_base(v)
            &&& spec_access_byte(w) == spec_access_byte(v)
            &&& spec_flags(w) == spec_flags(v)
        }),
{
}

proof fn lemma_set_access_byte(v: u64, a: u64)
    by (bit_vector)
    requires
        a < 0x100,
    ensures
        ({
            let w = (v & !(0xffu64 << 40u64)) | (a << 40u64);
            &&& spec_access_byte(w) == a
            &&& spec_base(w) == spec_base(v)
            &&& spec_limit(w) == spec_limit(v)
            &&& spec_flags(w) == spec_flags(v)
        }),
{
}

proof fn lemma_set_flags(v: u64, f: u64)
    by (bit_vector)
    requires
        f < 0x100,
    ensures
        ({
            let w = (v & !(0x0fu64 << 52u64)) | ((f & 0x0fu64) << 52u64);
            &&& spec_flags(w) == f & 0x0f
            &&& spec_base(w) == spec_base(v)
            &&& spec_limit(w) == spec_limit(v)
            &&& spec_access_byte(w) == spec_access_byte(v)
        }),
{
}

proof fn lemma_present_in_access(v: u64)
    by (bit_vector)
    ensures
        spec_present(v) == (spec_access_byte(v) & 0x80 != 0),
{
}

proof fn lemma_set_present(v: u64)
    by (bit_vector)
    ensures
        ({
            let w = v | (1u64 << 47u64);
            &&& spec_present(w)
            &&& spec_access_byte(w) == spec_access_byte(v) | 0x80
            &&& spec_base(w) == spec_base(v)
            &&& spec_limit(w) == spec_limit(v)
            &&& spec_flags(w) == spec_flags(v)
        }),
        ({
            let w = v & !(1u64 << 47u64);
            &&& !spec_present(w)
            &&& spec_access_byte(w) == spec_access_byte(v) & 0x7f
            &&& spec_base(w) == spec_base(v)
            &&& spec_limit(w) == spec_limit(v)
            &&& spec_flags(w) == spec_flags(v)
        }),
{
}

/// The present flag is the top bit of the access byte.
proof fn lemma_present_bit(v: u64)
    by (bit_vector)
    ensures
        spec_present(v) == (spec_access_byte(v) & 0x80u64 != 0),
{
}

impl Entry {
    /// An entry is present exactly when the top bit (0x80) of its access byte
    /// is set, so an entry built with a present access byte is present.
    pub proof fn lemma_present_in_access_byte(e: Entry)
        ensures
            e.present() == (e.access_byte() & 0x80 != 0),
    {
        lemma_present_bit(e.0);
    }
}

} // verus!
