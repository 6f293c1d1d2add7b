//! x86_64 boot handoff parsing, paging, and interrupt-controller logic.
pub mod boot_info;
pub mod paging;
pub mod idt;
pub mod apic;
pub mod timer;
