use winnie_os::arch::x86_64::boot_info::{MULTIBOOT2_MAGIC, ParseError, parse_multiboot2};
use winnie_os::boot_info::{
    BootInfo, BootInfoError, MAX_MEMORY_REGIONS, MemoryRegion, MemoryRegionKind,
};

const INFO_ADDR: usize = 0x9000;

fn u32le(v: u32) -> Vec<u8> {
    v.to_le_bytes().to_vec()
}

fn u64le(v: u64) -> Vec<u8> {
    v.to_le_bytes().to_vec()
}

/// A tag with the given type and payload, padded to the 8-byte tag alignment.
fn tag(typ: u32, payload: &[u8]) -> Vec<u8> {
    let size = 8 + payload.len() as u32;
    let mut t = u32le(typ);
    t.extend(u32le(size));
    t.extend_from_slice(payload);
    while t.len() % 8 != 0 {
        t.push(0);
    }
    t
}

fn mmap_payload(entry_size: u32, entries: &[(u64, u64, u32)]) -> Vec<u8> {
    let mut p = u32le(entry_size);
    p.extend(u32le(0));
    for (base, len, typ) in entries {
        p.extend(u64le(*base));
        p.extend(u64le(*len));
        p.extend(u32le(*typ));
        p.extend(u32le(0));
    }
    p
}

fn end_tag() -> Vec<u8> {
    tag(0, &[])
}

/// An information block holding `tags`, with its header.
fn info_block(tags: &[Vec<u8>]) -> Vec<u8> {
    let body: Vec<u8> = tags.iter().flatten().copied().collect();
    let total = 8 + body.len() as u32;
    let mut b = u32le(total);
    b.extend(u32le(0));
    b.extend(body);
    b
}

#[test]
fn memory_region_kind_from_multiboot_codes() {
    assert_eq!(MemoryRegionKind::from_multiboot_type(1), MemoryRegionKind::Usable);
    assert_eq!(MemoryRegionKind::from_multiboot_type(2), MemoryRegionKind::Reserved);
    assert_eq!(MemoryRegionKind::from_multiboot_type(3), MemoryRegionKind::AcpiReclaimable);
    assert_eq!(MemoryRegionKind::from_multiboot_type(4), MemoryRegionKind::Nvs);
    assert_eq!(MemoryRegionKind::from_multiboot_type(5), MemoryRegionKind::BadMemory);
    assert_eq!(MemoryRegionKind::from_multiboot_type(0), MemoryRegionKind::Unknown(0));
    assert_eq!(MemoryRegionKind::from_multiboot_type(77), MemoryRegionKind::Unknown(77));
}

#[test]
fn memory_region_kind_labels() {
    assert_eq!(MemoryRegionKind::Usable.as_str(), "usable");
    assert_eq!(MemoryRegionKind::Reserved.as_str(), "reserved");
    assert_eq!(MemoryRegionKind::AcpiReclaimable.as_str(), "acpi-reclaimable");
    assert_eq!(MemoryRegionKind::Nvs.as_str(), "nvs");
    assert_eq!(MemoryRegionKind::BadMemory.as_str(), "bad-memory");
    assert_eq!(MemoryRegionKind::Unknown(9).as_str(), "unknown");
}

#[test]
fn boot_info_push_and_capacity() {
    let mut info = BootInfo::new();
    assert!(info.is_empty());
    assert_eq!(info.region_count(), 0);
    let r = MemoryRegion { base: 0x1000, length: 0x2000, kind: MemoryRegionKind::Usable };
    assert_eq!(info.push_region(r), Ok(()));
    assert!(!info.is_empty());
    assert_eq!(info.regions(), &[r]);
    for _ in 1..MAX_MEMORY_REGIONS {
        assert_eq!(info.push_region(r), Ok(()));
    }
    assert_eq!(info.region_count(), MAX_MEMORY_REGIONS);
    assert_eq!(info.push_region(r), Err(BootInfoError::TooManyMemoryRegions));
    assert_eq!(info.region_count(), MAX_MEMORY_REGIONS);
}

#[test]
fn parse_reads_memory_map_and_skips_other_tags() {
    let block = info_block(&[
        tag(1, b"cmdline\0"),
        tag(6, &mmap_payload(24, &[(0x0, 0x9fc00, 1), (0x9fc00, 0x400, 2), (0x100000, 0x7ee0000, 1)])),
        end_tag(),
    ]);
    let mut info = BootInfo::new();
    assert_eq!(parse_multiboot2(MULTIBOOT2_MAGIC, INFO_ADDR, &block, &mut info), Ok(()));
    assert_eq!(
        info.regions(),
        &[
            MemoryRegion { base: 0x0, length: 0x9fc00, kind: MemoryRegionKind::Usable },
            MemoryRegion { base: 0x9fc00, length: 0x400, kind: MemoryRegionKind::Reserved },
            MemoryRegion { base: 0x100000, length: 0x7ee0000, kind: MemoryRegionKind::Usable },
        ]
    );
}

#[test]
fn parse_rejects_bad_magic_and_null_address_without_touching_regions() {
    let block = info_block(&[end_tag()]);
    let mut info = BootInfo::new();
    let r = MemoryRegion { base: 1, length: 2, kind: MemoryRegionKind::Nvs };
    info.push_region(r).unwrap();
    assert_eq!(parse_multiboot2(0x1234, INFO_ADDR, &block, &mut info), Err(ParseError::BadMagic(0x1234)));
    assert_eq!(parse_multiboot2(MULTIBOOT2_MAGIC, 0, &[], &mut info), Err(ParseError::TruncatedInfo));
    assert_eq!(info.regions(), &[r]);
}

#[test]
fn parse_rejects_short_header() {
    let mut block = u32le(4);
    block.extend(u32le(0));
    let mut info = BootInfo::new();
    assert_eq!(parse_multiboot2(MULTIBOOT2_MAGIC, INFO_ADDR, &block, &mut info), Err(ParseError::TruncatedInfo));
}

#[test]
fn parse_reports_missing_memory_map() {
    let block = info_block(&[tag(1, b"x"), end_tag()]);
    let mut info = BootInfo::new();
    assert_eq!(parse_multiboot2(MULTIBOOT2_MAGIC, INFO_ADDR, &block, &mut info), Err(ParseError::MissingMemoryMap));
    let header_only = info_block(&[]);
    assert_eq!(parse_multiboot2(MULTIBOOT2_MAGIC, INFO_ADDR, &header_only, &mut info), Err(ParseError::MissingMemoryMap));
}

#[test]
fn parse_discards_stale_regions() {
    let block = info_block(&[tag(6, &mmap_payload(24, &[(0x1000, 0x1000, 1)])), end_tag()]);
    let mut info = BootInfo::new();
    info.push_region(MemoryRegion { base: 7, length: 7, kind: MemoryRegionKind::BadMemory }).unwrap();
    assert_eq!(parse_multiboot2(MULTIBOOT2_MAGIC, INFO_ADDR, &block, &mut info), Ok(()));
    assert_eq!(info.regions(), &[MemoryRegion { base: 0x1000, length: 0x1000, kind: MemoryRegionKind::Usable }]);
}

#[test]
fn parse_rejects_invalid_tag_size() {
    let mut body = u32le(5);
    body.extend(u32le(4));
    let mut block = u32le(16);
    block.extend(u32le(0));
    block.extend(body);
    let mut info = BootInfo::new();
    assert_eq!(parse_multiboot2(MULTIBOOT2_MAGIC, INFO_ADDR, &block, &mut info), Err(ParseError::InvalidTagSize(4)));
}

#[test]
fn parse_rejects_tag_running_past_the_block() {
    let mut body = u32le(5);
    body.extend(u32le(64));
    let mut block = u32le(16);
    block.extend(u32le(0));
    block.extend(body);
    let mut info = BootInfo::new();
    assert_eq!(parse_multiboot2(MULTIBOOT2_MAGIC, INFO_ADDR, &block, &mut info), Err(ParseError::TruncatedTag));
    // A block too short to hold even a tag header.
    let mut short = u32le(12);
    short.extend(u32le(0));
    short.extend(u32le(0));
    assert_eq!(parse_multiboot2(MULTIBOOT2_MAGIC, INFO_ADDR, &short, &mut info), Err(ParseError::TruncatedTag));
}

#[test]
fn parse_rejects_unsupported_entry_size() {
    let block = info_block(&[tag(6, &mmap_payload(32, &[])), end_tag()]);
    let mut info = BootInfo::new();
    assert_eq!(
        parse_multiboot2(MULTIBOOT2_MAGIC, INFO_ADDR, &block, &mut info),
        Err(ParseError::UnsupportedMemoryMapEntrySize(32))
    );
}

#[test]
fn parse_rejects_truncated_memory_map() {
    // A memory-map tag too short for its own header.
    let block = info_block(&[tag(6, &u32le(24)), end_tag()]);
    let mut info = BootInfo::new();
    assert_eq!(parse_multiboot2(MULTIBOOT2_MAGIC, INFO_ADDR, &block, &mut info), Err(ParseError::TruncatedTag));
    // A memory-map tag whose last entry is cut short.
    let mut payload = mmap_payload(24, &[(0x1000, 0x1000, 1)]);
    payload.extend(u64le(0x5000));
    let mut t = u32le(6);
    t.extend(u32le(8 + payload.len() as u32));
    t.extend(payload);
    while t.len() % 8 != 0 {
        t.push(0);
    }
    let block = info_block(&[t, end_tag()]);
    let mut info = BootInfo::new();
    assert_eq!(parse_multiboot2(MULTIBOOT2_MAGIC, INFO_ADDR, &block, &mut info), Err(ParseError::TruncatedTag));
    assert_eq!(info.regions(), &[MemoryRegion { base: 0x1000, length: 0x1000, kind: MemoryRegionKind::Usable }]);
}

#[test]
fn parse_reports_too_many_regions() {
    let entries: Vec<(u64, u64, u32)> = (0..65).map(|i| (i * 0x1000, 0x1000, 1)).collect();
    let block = info_block(&[tag(6, &mmap_payload(24, &entries)), end_tag()]);
    let mut info = BootInfo::new();
    assert_eq!(parse_multiboot2(MULTIBOOT2_MAGIC, INFO_ADDR, &block, &mut info), Err(ParseError::TooManyRegions));
    assert_eq!(info.region_count(), MAX_MEMORY_REGIONS);
}

#[test]
fn parse_gathers_entries_of_several_memory_map_tags() {
    let block = info_block(&[
        tag(6, &mmap_payload(24, &[(0x0, 0x1000, 1)])),
        tag(6, &mmap_payload(24, &[(0x2000, 0x1000, 5)])),
        end_tag(),
        tag(6, &mmap_payload(24, &[(0x9000, 0x1000, 1)])),
    ]);
    let mut info = BootInfo::new();
    assert_eq!(parse_multiboot2(MULTIBOOT2_MAGIC, INFO_ADDR, &block, &mut info), Ok(()));
    assert_eq!(
        info.regions(),
        &[
            MemoryRegion { base: 0x0, length: 0x1000, kind: MemoryRegionKind::Usable },
            MemoryRegion { base: 0x2000, length: 0x1000, kind: MemoryRegionKind::BadMemory },
        ]
    );
}

#[test]
fn parse_near_the_top_of_the_address_space() {
    let top = usize::MAX - 15;
    // A header reporting too small a block.
    let mut short = u32le(4);
    short.extend(u32le(0));
    let mut info = BootInfo::new();
    assert_eq!(parse_multiboot2(MULTIBOOT2_MAGIC, top, &short, &mut info), Err(ParseError::TruncatedInfo));
    // A block reaching past the end of the address space.
    let mut long = u32le(100);
    long.extend(u32le(0));
    let r = MemoryRegion { base: 3, length: 3, kind: MemoryRegionKind::Reserved };
    info.push_region(r).unwrap();
    assert_eq!(parse_multiboot2(MULTIBOOT2_MAGIC, top, &long, &mut info), Err(ParseError::TruncatedTag));
    assert_eq!(info.regions(), &[r]);
    // A header-only block ending 7 bytes below the top.
    let header_only = info_block(&[]);
    assert_eq!(
        parse_multiboot2(MULTIBOOT2_MAGIC, top, &header_only, &mut info),
        Err(ParseError::MissingMemoryMap)
    );
    assert_eq!(info.region_count(), 0);
}
