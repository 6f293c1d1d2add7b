# Winnie OS kernel core

The verified core of Winnie OS, an early x86_64 higher-half kernel.

- `src/` is the library, proved with Verus. It needs no heap: the boot
  memory map, the allocator's regions and freed frames, the IDT and every
  result list live in fixed-size arrays.
  - `memory/frame.rs`: physical addresses and 4 KiB frames, alignment.
  - `memory/allocator.rs`: the frame allocator built from the boot memory map
    around the kernel-owned reserved spans, with LIFO reuse of freed frames,
    its abstract state, and the laws it keeps.
  - `boot_info.rs` and `arch/x86_64/boot_info.rs`: the owned boot memory map
    and the Multiboot2 information-block parser, a function on bytes.
  - `arch/x86_64/paging.rs`: paging entries and the 4-level walk over the
    bootstrap tables, edited in place through the identity-mapped window;
    mapping and unmapping one 4 KiB page.
  - `arch/x86_64/idt.rs`: gate descriptors and the kernel's exception table.
  - `arch/x86_64/apic.rs`, `arch/x86_64/timer.rs`: LAPIC bring-up decisions,
    register writes and timer tick bookkeeping.
  - `drivers/vga.rs`: text-mode cursor and cell layout, written into the
    text buffer.
  - `test_support/`: boot scenarios and QEMU exit codes.
- `app/` is the hardware side: port, MMIO and MSR access, `lidt`, `invlpg`,
  linker symbols, global state behind the spinlock, the serial UART and the
  boot entrypoint. It hands the library plain values and carries out what the
  library returns.
- `extras/boot.S` is the bootstrap assembly that runs before Rust: Multiboot2
  header, early page tables, GDT/TSS with the fault stacks, long-mode entry.
- `tests/` runs the library on concrete inputs.
