//! Verified core of the Winnie OS kernel: physical frame ownership, the owned
//! boot memory map and its Multiboot2 parser, x86_64 page-table and IDT entry
//! encoding, and the small pieces of interrupt-controller and console state.
//!
//! Everything here works on plain values. Code that touches hardware (port and
//! MMIO access, MSRs, `lidt`, `invlpg`, linker symbols) lives outside this crate
//! and hands the results in.
pub mod memory;
pub mod boot_info;
pub mod arch;
pub mod drivers;
pub mod test_support;
