//! Verified core of a small x86-64 UEFI bootloader and kernel.

pub mod bytes;
pub mod gdt;
pub mod scancode;
pub mod console;
pub mod elf;
pub mod boot;
pub mod text;
pub mod sync;
pub mod keyboard;
pub mod memory;
pub mod pages;
pub mod boot_info;
pub mod font;
pub mod display;
pub mod interrupts;
pub mod bdf;
