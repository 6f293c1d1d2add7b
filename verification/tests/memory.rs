use winnie_os::boot_info::{BootInfo, MemoryRegion, MemoryRegionKind};
use winnie_os::memory::allocator::{
    AllocatorInitError, FreeError, MonotonicFrameAllocator, PhysicalRange, physical_range,
};
use winnie_os::memory::{FRAME_SIZE, PhysicalAddress, PhysicalFrame};

fn region(base: u64, length: u64, kind: MemoryRegionKind) -> MemoryRegion {
    MemoryRegion { base, length, kind }
}

fn range(start: u64, end: u64) -> PhysicalRange {
    physical_range(PhysicalAddress::new(start), PhysicalAddress::new(end))
}

/// Reserved spans far away from the small synthetic maps below.
fn distant_reserved() -> [PhysicalRange; 2] {
    [range(0x10_0000, 0x18_0000), range(0x18_0000, 0x2f_0800)]
}

fn frame(addr: u64) -> PhysicalFrame {
    PhysicalFrame::from_start_address(PhysicalAddress::new(addr)).unwrap()
}

#[test]
fn exported_frame_types_support_aligned_frame_construction() {
    let addr = PhysicalAddress::new(0x2000);
    let frame = PhysicalFrame::from_start_address(addr);

    assert!(frame.is_some());
}

#[test]
fn monotonic_allocator_skips_reserved_regions_and_exhausts() {
    let mut boot_info = BootInfo::new();
    boot_info.push_region(region(0x0000, 0x1000, MemoryRegionKind::Reserved)).unwrap();
    boot_info.push_region(region(0x1000, 0x2000, MemoryRegionKind::Usable)).unwrap();
    boot_info.push_region(region(0x3000, 0x2000, MemoryRegionKind::Reserved)).unwrap();
    boot_info.push_region(region(0x5000, 0x2000, MemoryRegionKind::Usable)).unwrap();

    let mut allocator = MonotonicFrameAllocator::empty(distant_reserved());
    allocator.initialize_from_boot_info(&boot_info).unwrap();

    assert_eq!(allocator.allocate_frame().unwrap().start_address(), PhysicalAddress::new(0x1000));
    assert_eq!(allocator.allocate_frame().unwrap().start_address(), PhysicalAddress::new(0x2000));
    assert_eq!(allocator.allocate_frame().unwrap().start_address(), PhysicalAddress::new(0x5000));
    assert_eq!(allocator.allocate_frame().unwrap().start_address(), PhysicalAddress::new(0x6000));
    assert!(allocator.allocate_frame().is_none());
}

#[test]
fn monotonic_allocator_skips_kernel_owned_reserved_ranges() {
    let reserved = distant_reserved();
    let reserved_start = reserved[0].start.as_u64();
    let reserved_end = reserved[1].end_exclusive.as_u64();
    let first_frame_after_reserved = PhysicalAddress::new(reserved_end).checked_align_up().unwrap();
    let usable_start = reserved_start.checked_sub(FRAME_SIZE).unwrap();
    let usable_end = first_frame_after_reserved.as_u64().checked_add(FRAME_SIZE).unwrap();

    let mut boot_info = BootInfo::new();
    boot_info
        .push_region(region(usable_start, usable_end - usable_start, MemoryRegionKind::Usable))
        .unwrap();

    let mut allocator = MonotonicFrameAllocator::empty(reserved);
    allocator.initialize_from_boot_info(&boot_info).unwrap();

    assert_eq!(allocator.allocate_frame().unwrap().start_address(), PhysicalAddress::new(usable_start));
    assert_eq!(allocator.allocate_frame().unwrap().start_address(), first_frame_after_reserved);
    assert!(allocator.allocate_frame().is_none());
}

#[test]
fn address_alignment_helpers() {
    let a = PhysicalAddress::new(0x1234);
    assert!(!a.is_aligned());
    assert_eq!(a.align_down(), PhysicalAddress::new(0x1000));
    assert_eq!(a.align_up(), PhysicalAddress::new(0x2000));
    assert_eq!(a.checked_align_up(), Some(PhysicalAddress::new(0x2000)));
    let b = PhysicalAddress::new(0x3000);
    assert!(b.is_aligned());
    assert_eq!(b.align_down(), b);
    assert_eq!(b.checked_align_up(), Some(b));
    assert_eq!(PhysicalAddress::new(0xffff_ffff_ffff_f001).checked_align_up(), None);
    assert_eq!(
        PhysicalAddress::new(0xffff_ffff_ffff_f000).checked_align_up(),
        Some(PhysicalAddress::new(0xffff_ffff_ffff_f000))
    );
}

#[test]
fn frame_construction_and_stepping() {
    assert!(PhysicalFrame::from_start_address(PhysicalAddress::new(0x1001)).is_none());
    let f = frame(0x4000);
    assert_eq!(f.start_address().as_u64(), 0x4000);
    assert!(f.contains_address(PhysicalAddress::new(0x4fff)));
    assert!(!f.contains_address(PhysicalAddress::new(0x5000)));
    assert!(!f.contains_address(PhysicalAddress::new(0x3fff)));
    assert_eq!(f.next(), frame(0x5000));
    assert_eq!(f.checked_next(), Some(frame(0x5000)));
    let last = frame(0xffff_ffff_ffff_f000);
    assert_eq!(last.checked_next(), None);
    assert!(!last.contains_address(PhysicalAddress::new(0xffff_ffff_ffff_f800)));
}

#[test]
fn allocator_splits_usable_region_around_reserved_span() {
    let mut boot_info = BootInfo::new();
    boot_info.push_region(region(0x0, 0x6000, MemoryRegionKind::Usable)).unwrap();
    let reserved = [range(0x1800, 0x3000), range(0x9000, 0xa000)];
    let mut allocator = MonotonicFrameAllocator::new(&boot_info, reserved).ok().unwrap();
    // [0, 0x1800) keeps frame 0; [0x3000, 0x6000) keeps three frames.
    assert_eq!(allocator.allocate_frame(), Some(frame(0x0)));
    assert_eq!(allocator.allocate_frame(), Some(frame(0x3000)));
    assert_eq!(allocator.allocate_frame(), Some(frame(0x4000)));
    assert_eq!(allocator.allocate_frame(), Some(frame(0x5000)));
    assert_eq!(allocator.allocate_frame(), None);
}

#[test]
fn allocator_discards_sub_frame_fragments() {
    let mut boot_info = BootInfo::new();
    boot_info.push_region(region(0x1001, 0xffe, MemoryRegionKind::Usable)).unwrap();
    let mut allocator = MonotonicFrameAllocator::new(&boot_info, distant_reserved()).ok().unwrap();
    assert_eq!(allocator.allocate_frame(), None);
}

#[test]
fn allocator_reports_region_overflow() {
    let mut boot_info = BootInfo::new();
    boot_info.push_region(region(0xffff_ffff_ffff_0000, 0x2_0000, MemoryRegionKind::Usable)).unwrap();
    let r = MonotonicFrameAllocator::new(&boot_info, distant_reserved());
    assert_eq!(r.err(), Some(AllocatorInitError::RegionOverflow));
}

#[test]
fn allocator_reports_overflow_when_aligning_a_top_fragment() {
    let mut boot_info = BootInfo::new();
    boot_info.push_region(region(0xffff_ffff_ffff_f800, 0x100, MemoryRegionKind::Usable)).unwrap();
    let r = MonotonicFrameAllocator::new(&boot_info, distant_reserved());
    assert_eq!(r.err(), Some(AllocatorInitError::RegionOverflow));
}

#[test]
fn allocator_reports_too_many_fragments() {
    // A reversed first span leaves two overlapping pieces that the second span
    // then splits into four.
    let mut boot_info = BootInfo::new();
    boot_info.push_region(region(0x0, 0x10_0000, MemoryRegionKind::Usable)).unwrap();
    let reserved = [range(0x8_0000, 0x4_0000), range(0x6_0000, 0x7_0000)];
    let r = MonotonicFrameAllocator::new(&boot_info, reserved);
    assert_eq!(r.err(), Some(AllocatorInitError::TooManyAllocatableRegions));
}

#[test]
fn allocator_holds_three_fragments_for_every_boot_region() {
    // 64 copies of one usable region, each split in three by the two spans,
    // fill the region table to its capacity of 192.
    let mut boot_info = BootInfo::new();
    for _ in 0..64 {
        boot_info.push_region(region(0x0, 0x6000, MemoryRegionKind::Usable)).unwrap();
    }
    let reserved = [range(0x1000, 0x2000), range(0x3000, 0x4000)];
    let mut allocator = MonotonicFrameAllocator::new(&boot_info, reserved).ok().unwrap();
    let mut count = 0;
    while allocator.allocate_frame().is_some() {
        count += 1;
    }
    assert_eq!(count, 64 * 4);
}

#[test]
fn free_then_allocate_reuses_last_freed_frame() {
    let mut boot_info = BootInfo::new();
    boot_info.push_region(region(0x1000, 0x4000, MemoryRegionKind::Usable)).unwrap();
    let mut allocator = MonotonicFrameAllocator::new(&boot_info, distant_reserved()).ok().unwrap();
    let a = allocator.allocate_frame().unwrap();
    let b = allocator.allocate_frame().unwrap();
    assert_eq!(a, frame(0x1000));
    assert_eq!(b, frame(0x2000));
    assert_eq!(allocator.free(a), Ok(()));
    assert_eq!(allocator.free(b), Ok(()));
    assert_eq!(allocator.allocate_frame(), Some(b));
    assert_eq!(allocator.allocate_frame(), Some(a));
    assert_eq!(allocator.allocate_frame(), Some(frame(0x3000)));
}

#[test]
fn free_rejects_double_free() {
    let mut boot_info = BootInfo::new();
    boot_info.push_region(region(0x1000, 0x4000, MemoryRegionKind::Usable)).unwrap();
    let mut allocator = MonotonicFrameAllocator::new(&boot_info, distant_reserved()).ok().unwrap();
    let a = allocator.allocate_frame().unwrap();
    assert_eq!(allocator.free(a), Ok(()));
    assert_eq!(allocator.free(a), Err(FreeError::FrameAlreadyFreed));
}

#[test]
fn free_rejects_reserved_frame() {
    let mut boot_info = BootInfo::new();
    boot_info.push_region(region(0x1000, 0x4000, MemoryRegionKind::Usable)).unwrap();
    let mut allocator = MonotonicFrameAllocator::new(&boot_info, distant_reserved()).ok().unwrap();
    assert_eq!(allocator.free(frame(0x10_0000)), Err(FreeError::ReservedFrame));
    assert_eq!(allocator.free(frame(0x2f_0000)), Err(FreeError::ReservedFrame));
}

#[test]
fn free_rejects_frames_not_yet_handed_out_or_unmanaged() {
    let mut boot_info = BootInfo::new();
    boot_info.push_region(region(0x1000, 0x4000, MemoryRegionKind::Usable)).unwrap();
    let mut allocator = MonotonicFrameAllocator::new(&boot_info, distant_reserved()).ok().unwrap();
    assert_eq!(allocator.free(frame(0x1000)), Err(FreeError::UnmanagedFrame));
    assert_eq!(allocator.free(frame(0x9000)), Err(FreeError::UnmanagedFrame));
    let _ = allocator.allocate_frame().unwrap();
    assert_eq!(allocator.free(frame(0x2000)), Err(FreeError::UnmanagedFrame));
    assert_eq!(allocator.free(frame(0x1000)), Ok(()));
}

#[test]
fn exhausted_allocator_accepts_any_managed_frame_back() {
    let mut boot_info = BootInfo::new();
    boot_info.push_region(region(0x1000, 0x2000, MemoryRegionKind::Usable)).unwrap();
    let mut allocator = MonotonicFrameAllocator::new(&boot_info, distant_reserved()).ok().unwrap();
    assert!(allocator.allocate_frame().is_some());
    assert!(allocator.allocate_frame().is_some());
    assert!(allocator.allocate_frame().is_none());
    assert!(allocator.allocate_frame().is_none());
    assert_eq!(allocator.free(frame(0x2000)), Ok(()));
    assert_eq!(allocator.allocate_frame(), Some(frame(0x2000)));
}

#[test]
fn free_reports_reuse_stack_overflow() {
    let mut boot_info = BootInfo::new();
    boot_info.push_region(region(0x0, 0x100_0000, MemoryRegionKind::Usable)).unwrap();
    let mut allocator = MonotonicFrameAllocator::new(&boot_info, distant_reserved()).ok().unwrap();
    let mut frames = Vec::new();
    for _ in 0..193 {
        frames.push(allocator.allocate_frame().unwrap());
    }
    for f in frames.iter().take(192) {
        assert_eq!(allocator.free(*f), Ok(()));
    }
    assert_eq!(allocator.free(frames[192]), Err(FreeError::FreedFrameOverflow));
}

#[test]
fn empty_allocator_hands_out_nothing() {
    let mut allocator = MonotonicFrameAllocator::empty(distant_reserved());
    assert!(allocator.allocate_frame().is_none());
    assert_eq!(allocator.free(frame(0x1000)), Err(FreeError::UnmanagedFrame));
}

#[test]
fn empty_allocator_still_rejects_reserved_frames() {
    let mut allocator = MonotonicFrameAllocator::empty(distant_reserved());
    assert_eq!(allocator.free(frame(0x10_0000)), Err(FreeError::ReservedFrame));
    assert_eq!(allocator.free(frame(0x2f_0000)), Err(FreeError::ReservedFrame));
    // A frame starting past the end of a span is not reserved.
    assert_eq!(allocator.free(frame(0x2f_1000)), Err(FreeError::UnmanagedFrame));
}

#[test]
fn addresses_and_frames_order_by_value() {
    assert!(PhysicalAddress::new(0x1000) < PhysicalAddress::new(0x2000));
    assert!(PhysicalAddress::new(0x2000) >= PhysicalAddress::new(0x2000));
    assert!(frame(0x3000) > frame(0x2000));
    assert_eq!(
        PhysicalAddress::new(5).partial_cmp(&PhysicalAddress::new(5)),
        Some(std::cmp::Ordering::Equal)
    );
}

#[test]
fn reinitialization_behaves_like_a_fresh_allocator() {
    let mut first = BootInfo::new();
    first.push_region(region(0x8000, 0x3000, MemoryRegionKind::Usable)).unwrap();
    let mut second = BootInfo::new();
    second.push_region(region(0x1000, 0x2000, MemoryRegionKind::Usable)).unwrap();
    second.push_region(region(0x4000, 0x1000, MemoryRegionKind::Usable)).unwrap();

    let mut used = MonotonicFrameAllocator::new(&first, distant_reserved()).ok().unwrap();
    let a = used.allocate_frame().unwrap();
    let _ = used.allocate_frame().unwrap();
    assert_eq!(used.free(a), Ok(()));
    assert_eq!(used.initialize_from_boot_info(&second), Ok(()));

    let mut fresh = MonotonicFrameAllocator::new(&second, distant_reserved()).ok().unwrap();
    for _ in 0..4 {
        assert_eq!(used.allocate_frame(), fresh.allocate_frame());
    }
    assert_eq!(used.allocate_frame(), None);
    // The frame freed before the reinitialization is no longer managed.
    assert_eq!(used.free(a), Err(FreeError::UnmanagedFrame));
}

