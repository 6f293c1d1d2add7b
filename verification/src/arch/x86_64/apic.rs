use vstd::prelude::*;

use crate::arch::x86_64::paging::{
    IDENTITY_WINDOW_WORDS, MapError, PageTablesView, RUNTIME_MMIO_PAGE_VIRT_ADDR,
    map_mmio_outcome, map_mmio_page, tables_view,
};
use crate::memory::PhysicalAddress;

verus! {

/// The model-specific register holding the LAPIC physical base and enable bit.
pub const IA32_APIC_BASE_MSR: u32 = 0x1b;

/// The global enable bit (bit 11) of `IA32_APIC_BASE`.
pub const IA32_APIC_BASE_ENABLE_BIT: u64 = 0x800;

/// The physical-base bits (12..51) of `IA32_APIC_BASE`.
pub const IA32_APIC_BASE_PHYS_MASK: u64 = 0x000f_ffff_ffff_f000;

pub const SPURIOUS_INTERRUPT_VECTOR_REGISTER_OFFSET: u64 = 0x0f0;

pub const END_OF_INTERRUPT_REGISTER_OFFSET: u64 = 0x0b0;

pub const SPURIOUS_VECTOR: u32 = 0xff;

/// The APIC software-enable bit (bit 8) of the spurious-vector register.
pub const SPURIOUS_INTERRUPT_VECTOR_ENABLE_BIT: u32 = 0x100;

/// Reports failure while mapping or enabling the local APIC.
#[derive(Debug, Clone, Copy, PartialEq, Eq, Structural)]
pub enum ApicInitError {
    MappedPageNotAligned,
    MmioMapFailed(MapError),
}

/// One 32-bit write to a LAPIC register, at `offset` within the LAPIC page.
#[derive(Debug, Clone, Copy, PartialEq, Eq, Structural)]
pub struct RegisterWrite {
    pub offset: u64,
    pub value: u32,
}

/// Whether the LAPIC MMIO path has been brought up.
pub struct ApicState {
    pub initialized: bool,
}

impl ApicState {
    /// The state before any LAPIC initialization.
    pub fn new() -> (r: Self)
        ensures
            !r.initialized,
    {
        ApicState { initialized: false }
    }
}

/// The value `IA32_APIC_BASE` must be rewritten to, if its enable bit is clear.
pub open spec fn apic_base_write(apic_base: u64) -> Option<u64> {
    if apic_base & IA32_APIC_BASE_ENABLE_BIT == 0 {
        Some(apic_base | IA32_APIC_BASE_ENABLE_BIT)
    } else {
        None
    }
}

/// The LAPIC physical page named by `IA32_APIC_BASE`.
pub open spec fn lapic_phys_base(apic_base: u64) -> u64 {
    apic_base & IA32_APIC_BASE_PHYS_MASK
}

/// The outcome of mapping the LAPIC page for `IA32_APIC_BASE` value
/// `apic_base` into the runtime MMIO slot.
pub open spec fn apic_map_outcome(t: PageTablesView, apic_base: u64) -> (
    PageTablesView,
    Result<(), ApicInitError>,
) {
    let (t2, r) = map_mmio_outcome(t, RUNTIME_MMIO_PAGE_VIRT_ADDR, lapic_phys_base(apic_base));
    (
        t2,
        match r {
            Ok(()) => Ok(()),
            Err(e) => Err(ApicInitError::MmioMapFailed(e)),
        },
    )
}

/// The value to write back to `IA32_APIC_BASE` before the LAPIC is used, if
/// its global enable bit is clear in the current value `apic_base`.
pub fn apic_base_enable_write(apic_base: u64) -> (r: Option<u64>)
    ensures
        r == apic_base_write(apic_base),
{
    if apic_base & IA32_APIC_BASE_ENABLE_BIT == 0 {
        Some(apic_base | IA32_APIC_BASE_ENABLE_BIT)
    } else {
        None
    }
}

/// First half of LAPIC bring-up, given the current `IA32_APIC_BASE` value.
///
/// Returns the value to write back to `IA32_APIC_BASE` first, if its global
/// enable bit was clear, and the result of mapping the LAPIC page into the
/// runtime MMIO slot of the page tables rooted at `p4_table` and reached
/// through the identity window `window`. On success the caller flushes that slot's TLB entry,
/// reads the spurious-vector register and finishes with
/// `complete_initialization`.
pub fn initialize(apic_base: u64, p4_table: PhysicalAddress, window: &mut [u64]) -> (r: (
    Option<u64>,
    Result<(), ApicInitError>,
))
    requires
        old(window)@.len() == IDENTITY_WINDOW_WORDS,
    ensures
        r.0 == apic_base_write(apic_base),
        (tables_view(p4_table, final(window)@), r.1) == apic_map_outcome(
            tables_view(p4_table, old(window)@),
            apic_base,
        ),
{
    let base_write = apic_base_enable_write(apic_base);
    let base = match base_write {
        Some(enabled) => enabled,
        None => apic_base,
    };
    let lapic_phys_base = PhysicalAddress::new(base & IA32_APIC_BASE_PHYS_MASK);
    assert((apic_base | 0x800u64) & 0x000f_ffff_ffff_f000u64 == apic_base & 0x000f_ffff_ffff_f000u64)
        by (bit_vector);
    assert((apic_base & 0x000f_ffff_ffff_f000u64) % 4096 == 0) by (bit_vector);
    if !lapic_phys_base.is_aligned() {
        return (base_write, Err(ApicInitError::MappedPageNotAligned));
    }
    match map_mmio_page(p4_table, window, RUNTIME_MMIO_PAGE_VIRT_ADDR, lapic_phys_base) {
        Ok(()) => (base_write, Ok(())),
        Err(e) => (base_write, Err(ApicInitError::MmioMapFailed(e))),
    }
}

/// Second half of LAPIC bring-up: given the current spurious-vector register
/// value, returns the write that software-enables the LAPIC with spurious
/// vector `0xff`, and records the LAPIC as initialized.
pub fn complete_initialization(state: &mut ApicState, spurious_value: u32) -> (r: RegisterWrite)
    ensures
        r == (RegisterWrite {
            offset: SPURIOUS_INTERRUPT_VECTOR_REGISTER_OFFSET,
            value: spurious_value | SPURIOUS_INTERRUPT_VECTOR_ENABLE_BIT | SPURIOUS_VECTOR,
        }),
        final(state).initialized,
{
    state.initialized = true;
    RegisterWrite {
        offset: SPURIOUS_INTERRUPT_VECTOR_REGISTER_OFFSET,
        value: spurious_value | SPURIOUS_INTERRUPT_VECTOR_ENABLE_BIT | SPURIOUS_VECTOR,
    }
}

/// Reports whether the LAPIC MMIO path has been initialized already.
pub fn is_initialized(state: &ApicState) -> (r: bool)
    ensures
        r == state.initialized,
{
    state.initialized
}

/// The write that signals end-of-interrupt to the LAPIC after one handled
/// external interrupt.
pub fn end_of_interrupt() -> (r: RegisterWrite)
    ensures
        r == (RegisterWrite { offset: END_OF_INTERRUPT_REGISTER_OFFSET, value: 0 }),
{
    RegisterWrite { offset: END_OF_INTERRUPT_REGISTER_OFFSET, value: 0 }
}

/// The virtual address of the LAPIC register at `offset` in the runtime MMIO slot.
pub fn register_ptr(offset: u64) -> (r: u64)
    requires
        RUNTIME_MMIO_PAGE_VIRT_ADDR + offset <= u64::MAX,
    ensures
        r == RUNTIME_MMIO_PAGE_VIRT_ADDR + offset,
{
    RUNTIME_MMIO_PAGE_VIRT_ADDR + offset
}

} // verus!
