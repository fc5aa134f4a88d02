# kernel

The verified core of a small x86-64 UEFI bootloader and the kernel it
loads, written in Verus.

## Layout

- `src/` is the library; every function in it is verified, but for two
  small wrappers around outside functions (`char::from_u32` and x86_64's
  frame alignment), whose contracts are trusted.
  - `elf`, `bytes`: reading ELF headers, program and section headers,
    relocation and dynamic entries from the bytes of a file.
  - `boot`: the bootloader's decisions: the pages the kernel occupies, the
    kernel image built from its segments and relative relocations, the video
    mode, buffer sizes and the kernel's virtual addresses.
  - `pages`: four-level page tables, their entries, and mapping a page
    through tables that are asked for one at a time.
  - `text`: the UTF-16 text and numbers the firmware console prints.
  - `memory`: the firmware memory map and the kernel's page allocator.
  - `gdt`, `interrupts`: GDT entries and IDT gates.
  - `scancode`, `keyboard`, `console`: PS/2 scan codes, the Finnish layout,
    the keyboard event queue and the console's handling of key events.
  - `sync`: a spin lock, a value set once, a mutex and a ring buffer.
  - `boot_info`, `font`, `bdf`, `display`: the frame buffer, BDF fonts and
    drawing text on the display.
- `tests/` runs the library on concrete values.
- `app/` is the bootloader's and the kernel's contact with the machine:
  firmware calls, port I/O, descriptor table loads and interrupt entry
  stubs. Its `main` runs the loader's steps on a kernel file on a host.

The bootloader reads the kernel from the file `KERNEL` and the console font
from the file `FONT` on its boot volume.
