use winnie_os::arch::x86_64::paging::{
    IDENTITY_WINDOW_START, IDENTITY_WINDOW_WORDS, MapError, PageTableEntry,
    RUNTIME_MMIO_PAGE_VIRT_ADDR, RUNTIME_SCRATCH_PAGE_VIRT_ADDR, map_kernel_page, map_mmio_page,
    unmap_kernel_page,
};
use winnie_os::memory::{PhysicalAddress, PhysicalFrame};

const P4: u64 = 0x1000;
const P3: u64 = 0x2000;
const P2: u64 = 0x3000;
const P1: u64 = 0x4000;

fn word(table: u64, index: usize) -> usize {
    ((table - IDENTITY_WINDOW_START) / 8) as usize + index
}

fn root() -> PhysicalAddress {
    PhysicalAddress::new(P4)
}

/// Bootstrap-like tables: the higher-half stack window walks P4[511] ->
/// P3[510] -> P2[1] -> P1, with every P1 entry empty.
fn bootstrap_tables() -> Vec<u64> {
    let mut window = vec![0u64; IDENTITY_WINDOW_WORDS];
    window[word(P4, 511)] = P3 | 3;
    window[word(P3, 510)] = P2 | 3;
    window[word(P2, 1)] = P1 | 3;
    window
}

fn frame(addr: u64) -> PhysicalFrame {
    PhysicalFrame::from_start_address(PhysicalAddress::new(addr)).unwrap()
}

#[test]
fn page_table_entry_encoding() {
    let mut e = PageTableEntry::empty();
    assert!(!e.is_present());
    assert_eq!(e.address(), PhysicalAddress::new(0));
    e.set_frame(frame(0x12_3000), 3);
    assert!(e.is_present());
    assert_eq!(e.address(), PhysicalAddress::new(0x12_3000));
    e.set_address(PhysicalAddress::new(0xfee0_0000), 0x1a);
    assert!(!e.is_present());
    assert_eq!(e.address(), PhysicalAddress::new(0xfee0_0000));
    // Bits 52 and up are not part of the address.
    e.set_address(PhysicalAddress::new(0x8010_0000_0000_1000), 1);
    assert_eq!(e.address(), PhysicalAddress::new(0x0000_0000_0000_1000));
}

#[test]
fn identity_window_spans_the_low_two_mebibytes_after_the_first_page() {
    assert_eq!(IDENTITY_WINDOW_START, 0x1000);
    assert_eq!(IDENTITY_WINDOW_START + 8 * IDENTITY_WINDOW_WORDS as u64, 0x20_0000);
}

#[test]
fn map_and_unmap_scratch_page() {
    let mut tables = bootstrap_tables();
    let slot = word(P1, 9);
    assert_eq!(map_kernel_page(root(), &mut tables, RUNTIME_SCRATCH_PAGE_VIRT_ADDR, frame(0x7000)), Ok(()));
    assert_eq!(tables[slot], 0x7000 | 3);
    assert_eq!(
        map_kernel_page(root(), &mut tables, RUNTIME_SCRATCH_PAGE_VIRT_ADDR, frame(0x8000)),
        Err(MapError::PageAlreadyMapped)
    );
    assert_eq!(unmap_kernel_page(root(), &mut tables, RUNTIME_SCRATCH_PAGE_VIRT_ADDR), Ok(()));
    assert_eq!(tables[slot], 0);
    assert_eq!(unmap_kernel_page(root(), &mut tables, RUNTIME_SCRATCH_PAGE_VIRT_ADDR), Err(MapError::PageNotMapped));
}

#[test]
fn map_mmio_page_sets_uncached_flags() {
    let mut tables = bootstrap_tables();
    assert_eq!(
        map_mmio_page(root(), &mut tables, RUNTIME_MMIO_PAGE_VIRT_ADDR, PhysicalAddress::new(0xfee0_0000)),
        Ok(())
    );
    assert_eq!(tables[word(P1, 10)], 0xfee0_0000 | 0x1b);
    assert_eq!(
        map_mmio_page(root(), &mut tables, RUNTIME_MMIO_PAGE_VIRT_ADDR + 0x1000, PhysicalAddress::new(0xfee0_0010)),
        Err(MapError::UnalignedPhysicalAddress)
    );
}

#[test]
fn unaligned_virtual_address_is_rejected_first() {
    let mut tables = bootstrap_tables();
    assert_eq!(
        map_kernel_page(root(), &mut tables, RUNTIME_SCRATCH_PAGE_VIRT_ADDR + 8, frame(0x7000)),
        Err(MapError::UnalignedVirtualAddress)
    );
    assert_eq!(
        map_mmio_page(root(), &mut tables, 0x10, PhysicalAddress::new(0x11)),
        Err(MapError::UnalignedVirtualAddress)
    );
    assert_eq!(unmap_kernel_page(root(), &mut tables, 0x123), Err(MapError::UnalignedVirtualAddress));
}

#[test]
fn walk_reports_missing_intermediate_table() {
    let mut tables = bootstrap_tables();
    // The low half has no P3 table behind P4[0].
    assert_eq!(map_kernel_page(root(), &mut tables, 0x40_0000, frame(0x7000)), Err(MapError::MissingIntermediateTable));
}

#[test]
fn walk_reports_tables_outside_the_identity_window() {
    let mut window = vec![0u64; IDENTITY_WINDOW_WORDS];
    window[word(P4, 511)] = 0x4000_0000 | 3;
    assert_eq!(
        map_kernel_page(root(), &mut window, RUNTIME_SCRATCH_PAGE_VIRT_ADDR, frame(0x7000)),
        Err(MapError::PageTableNotIdentityMapped)
    );
    let mut empty = vec![0u64; IDENTITY_WINDOW_WORDS];
    assert_eq!(
        unmap_kernel_page(PhysicalAddress::new(0x1008), &mut empty, RUNTIME_SCRATCH_PAGE_VIRT_ADDR),
        Err(MapError::UnalignedPhysicalAddress)
    );
    // The first physical page is not part of the identity window.
    assert_eq!(
        unmap_kernel_page(PhysicalAddress::new(0), &mut empty, RUNTIME_SCRATCH_PAGE_VIRT_ADDR),
        Err(MapError::PageTableNotIdentityMapped)
    );
}
