use winnie_os::arch::x86_64::apic::{
    ApicInitError, ApicState, RegisterWrite, apic_base_enable_write, complete_initialization,
    end_of_interrupt,
    initialize, is_initialized, register_ptr,
};
use winnie_os::arch::x86_64::idt::{Idt, IdtEntry, kernel_idt};
use winnie_os::arch::x86_64::paging::{
    IDENTITY_WINDOW_START, IDENTITY_WINDOW_WORDS, MapError, RUNTIME_MMIO_PAGE_VIRT_ADDR,
};
use winnie_os::arch::x86_64::timer::{
    TimerInitError, TimerState, first_tick_observed, initialize as timer_initialize,
    record_timer_tick, reset_timer_state, tick_count,
};
use winnie_os::memory::PhysicalAddress;

fn word(table: u64, index: usize) -> usize {
    ((table - IDENTITY_WINDOW_START) / 8) as usize + index
}

/// The higher-half stack window walks P4 (0x1000) [511] -> P3 (0x2000) [510]
/// -> P2 (0x3000) [1] -> P1 (0x4000), with every P1 entry empty.
fn bootstrap_tables() -> Vec<u64> {
    let mut window = vec![0u64; IDENTITY_WINDOW_WORDS];
    window[word(0x1000, 511)] = 0x2000 | 3;
    window[word(0x2000, 510)] = 0x3000 | 3;
    window[word(0x3000, 1)] = 0x4000 | 3;
    window
}

fn root() -> PhysicalAddress {
    PhysicalAddress::new(0x1000)
}

#[test]
fn idt_entry_splits_handler_address() {
    let e = IdtEntry::new(0xffff_ffff_8012_3456, 9);
    let (lo, hi) = e.descriptor();
    assert_eq!(lo & 0xffff, 0x3456);
    assert_eq!((lo >> 16) & 0xffff, 0x8);
    assert_eq!((lo >> 32) & 0xff, 1);
    assert_eq!((lo >> 40) & 0xff, 0x8e);
    assert_eq!(lo >> 48, 0x8012);
    assert_eq!(hi, 0xffff_ffff);
    assert_eq!(IdtEntry::missing().descriptor(), (0, 0));
}

#[test]
fn kernel_idt_routes_faults_to_their_stacks() {
    let idt = kernel_idt(0x1000, 0x2000, 0x3000, 0x4000, 0x5000);
    assert_eq!(idt.entry(0), IdtEntry::new(0x1000, 0));
    assert_eq!(idt.entry(6), IdtEntry::new(0x2000, 0));
    assert_eq!(idt.entry(8), IdtEntry::new(0x3000, 1));
    assert_eq!(idt.entry(13), IdtEntry::new(0x4000, 0));
    assert_eq!(idt.entry(14), IdtEntry::new(0x5000, 2));
    assert_eq!(idt.entry(1), IdtEntry::missing());
    assert_eq!(idt.entry(255), IdtEntry::missing());
}

#[test]
fn idt_set_and_clear() {
    let mut idt = Idt::new();
    idt.set(32, 0xabc);
    idt.set_with_ist(8, 0xdef, 1);
    assert_eq!(idt.entry(32), IdtEntry::new(0xabc, 0));
    assert_eq!(idt.entry(8), IdtEntry::new(0xdef, 1));
    idt.clear(8);
    assert_eq!(idt.entry(8), IdtEntry::missing());
}

#[test]
fn apic_initialization_enables_and_maps() {
    let mut tables = bootstrap_tables();
    let (write, result) = initialize(0xfee0_0100, root(), &mut tables);
    assert_eq!(write, Some(0xfee0_0900));
    assert_eq!(result, Ok(()));
    assert_eq!(tables[word(0x4000, 10)], 0xfee0_0000 | 0x1b);
    let mut state = ApicState::new();
    assert!(!is_initialized(&state));
    let w = complete_initialization(&mut state, 0x0000_000f);
    assert_eq!(w, RegisterWrite { offset: 0xf0, value: 0x1ff });
    assert!(is_initialized(&state));
}

#[test]
fn apic_initialization_skips_msr_write_when_enabled() {
    let mut tables = bootstrap_tables();
    let (write, result) = initialize(0xfee0_0900, root(), &mut tables);
    assert_eq!(write, None);
    assert_eq!(result, Ok(()));
    let (_, again) = initialize(0xfee0_0900, root(), &mut tables);
    assert_eq!(again, Err(ApicInitError::MmioMapFailed(MapError::PageAlreadyMapped)));
}

#[test]
fn apic_register_helpers() {
    assert_eq!(end_of_interrupt(), RegisterWrite { offset: 0xb0, value: 0 });
    assert_eq!(register_ptr(0x320), RUNTIME_MMIO_PAGE_VIRT_ADDR + 0x320);
    assert_eq!(register_ptr(0x1_0000), RUNTIME_MMIO_PAGE_VIRT_ADDR + 0x1_0000);
}

#[test]
fn timer_requires_initialized_lapic() {
    let mut state = ApicState::new();
    assert_eq!(timer_initialize(&state).err(), Some(TimerInitError::LapicNotInitialized));
    let _ = complete_initialization(&mut state, 0);
    assert_eq!(
        timer_initialize(&state).ok().unwrap(),
        [
            RegisterWrite { offset: 0x320, value: 32 | (1 << 17) },
            RegisterWrite { offset: 0x3e0, value: 3 },
            RegisterWrite { offset: 0x380, value: 100_000 },
        ]
    );
}

#[test]
fn timer_ticks_count_from_reset() {
    let mut state = TimerState::new();
    assert_eq!(tick_count(&state), 0);
    assert!(!first_tick_observed(&state));
    assert_eq!(record_timer_tick(&mut state), 1);
    assert!(first_tick_observed(&state));
    assert_eq!(first_tick_observed(&state), tick_count(&state) > 0);
    assert_eq!(record_timer_tick(&mut state), 2);
    assert_eq!(tick_count(&state), 2);
    reset_timer_state(&mut state);
    assert_eq!(tick_count(&state), 0);
    assert!(!first_tick_observed(&state));
    assert_eq!(record_timer_tick(&mut state), 1);
}

#[test]
fn apic_enable_write_only_when_the_enable_bit_is_clear() {
    assert_eq!(apic_base_enable_write(0xfee0_0000), Some(0xfee0_0800));
    assert_eq!(apic_base_enable_write(0xfee0_0900), None);
}
