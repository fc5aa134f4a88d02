//! Interrupt descriptor table entries.

use vstd::prelude::*;
use crate::gdt::KERNEL_CS;

verus! {

/// The number of entries of the interrupt descriptor table.
pub const IDT_ENTRIES: usize = 256;

/// The size in bytes of an entry of the interrupt descriptor table.
pub const IDT_ENTRY_SIZE: usize = 16;

/// The type and attributes of an interrupt gate: present, privilege level
/// 0, 64-bit interrupt gate.
pub const INTERRUPT_GATE: u8 = 0x8E;

/// What the processor pushes when it takes an interrupt.
#[derive(Debug, Clone, Copy, PartialEq, Eq, Structural)]
pub struct InterruptStackFrame {
    pub instruction_pointer: u64,
    pub code_segment: u64,
    pub cpu_flags: u64,
    pub stack_pointer: u64,
    pub stack_segment: u64,
}

/// An entry of the interrupt descriptor table (a gate descriptor).
#[derive(Debug, Clone, Copy, PartialEq, Eq, Structural)]
pub struct IdtEntry {
    pub offset_low: u16,
    pub selector: u16,
    pub ist: u8,
    pub type_attr: u8,
    pub offset_mid: u16,
    pub offset_high: u32,
    pub reserved: u32,
}

/// The handler address an entry holds, put back together from its three
/// parts.
pub open spec fn handler_address(e: IdtEntry) -> int {
    e.offset_low + e.offset_mid * 0x1_0000 + e.offset_high * 0x1_0000_0000
}

impl IdtEntry {
    /// An empty entry: every field zero.
    pub fn new() -> (r: Self)
        ensures
            r == (IdtEntry {
                offset_low: 0,
                selector: 0,
                ist: 0,
                type_attr: 0,
                offset_mid: 0,
                offset_high: 0,
                reserved: 0,
            }),
    {
        IdtEntry {
            offset_low: 0,
            selector: 0,
            ist: 0,
            type_attr: 0,
            offset_mid: 0,
            offset_high: 0,
            reserved: 0,
        }
    }

    /// Makes the entry an interrupt gate to the handler at `handler`, in the
    /// kernel code segment.
    pub fn set_handler(&mut self, handler: u64)
        ensures
            final(self).offset_low == handler % 0x1_0000,
            final(self).offset_mid == (handler / 0x1_0000) % 0x1_0000,
            final(self).offset_high == handler / 0x1_0000_0000,
            final(self).selector == KERNEL_CS,
            final(self).ist == 0,
            final(self).type_attr == INTERRUPT_GATE,
            final(self).reserved == 0,
            handler_address(*final(self)) == handler,
    {
        proof {
            lemma_split_handler(handler);
        }
        self.offset_low = (handler & 0xffff) as u16;
        self.offset_mid = ((handler >> 16) & 0xffff) as u16;
        self.offset_high = (handler >> 32) as u32;
        self.selector = KERNEL_CS as u16;
        self.ist = 0;
        self.type_attr = INTERRUPT_GATE;
        self.reserved = 0;
    }
}

proof fn lemma_split_handler(h: u64)
    by (bit_vector)
    ensures
        h & 0xffffu64 == h % 0x1_0000,
        (h >> 16u64) & 0xffffu64 == (h / 0x1_0000) % 0x1_0000,
        h >> 32u64 == h / 0x1_0000_0000,
        (h >> 32u64) < 0x1_0000_0000,
        h == (h & 0xffffu64) + ((h >> 16u64) & 0xffffu64) * 0x1_0000 + (h >> 32u64) * 0x1_0000_0000,
{
}

/// The `limit` field of the table descriptor: the size of the table in
/// bytes, minus one.
pub fn idt_limit() -> (r: u16)
    ensures
        r == IDT_ENTRIES * IDT_ENTRY_SIZE - 1,
{
    (IDT_ENTRIES * IDT_ENTRY_SIZE - 1) as u16
}

} // verus!
