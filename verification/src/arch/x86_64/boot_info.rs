use vstd::prelude::*;

use crate::boot_info::{
    BootInfo, BootInfoError, MAX_MEMORY_REGIONS, MemoryRegion, MemoryRegionKind,
    kind_of_multiboot_type,
};

verus! {

/// The value a Multiboot2 loader leaves in `eax` on handoff.
pub const MULTIBOOT2_MAGIC: u32 = 0x36d7_6289;

pub const TAG_TYPE_END: u32 = 0;

pub const TAG_TYPE_MEMORY_MAP: u32 = 6;

pub const MULTIBOOT_TAG_ALIGN: usize = 8;

/// Bytes in the fixed header at the start of the information block
/// (`total_size: u32`, reserved `u32`).
pub const INFO_HEADER_SIZE: usize = 8;

/// Bytes in the header common to every tag (`type: u32`, `size: u32`).
pub const TAG_HEADER_SIZE: usize = 8;

/// Bytes in the memory-map tag header (`type`, `size`, `entry_size`,
/// `entry_version`, each a `u32`).
pub const MEMORY_MAP_TAG_HEADER_SIZE: usize = 16;

/// Bytes in one supported memory-map entry (`base_addr: u64`, `length: u64`,
/// `type: u32`, reserved `u32`).
pub const MEMORY_MAP_ENTRY_SIZE: usize = 24;

/// Reports why Multiboot2 boot-info parsing could not produce an owned `BootInfo`.
#[derive(Debug, Clone, Copy, PartialEq, Eq, Structural)]
pub enum ParseError {
    BadMagic(u32),
    MissingMemoryMap,
    TooManyRegions,
    TruncatedInfo,
    TruncatedTag,
    InvalidTagSize(u32),
    UnsupportedMemoryMapEntrySize(u32),
}

/// The little-endian `u32` stored at `off` in `b`.
pub open spec fn le_u32(b: Seq<u8>, off: int) -> int {
    b[off] + 256 * b[off + 1] + 65536 * b[off + 2] + 16777216 * b[off + 3]
}

/// The little-endian `u64` stored at `off` in `b`.
pub open spec fn le_u64(b: Seq<u8>, off: int) -> int {
    le_u32(b, off) + 4294967296 * le_u32(b, off + 4)
}

/// `v` rounded up to the Multiboot2 tag alignment of 8 bytes.
pub open spec fn align8(v: int) -> int {
    v + 7 - (v + 7) % 8
}

/// The memory-map entry stored at byte offset `off` of the information block.
pub open spec fn entry_at(info: Seq<u8>, off: int) -> MemoryRegion {
    MemoryRegion {
        base: le_u64(info, off) as u64,
        length: le_u64(info, off + 8) as u64,
        kind: kind_of_multiboot_type(le_u32(info, off + 16) as u32),
    }
}

/// A memory-map entry is read little-endian from every byte of its fields:
/// the base from the 8 bytes at `off`, the length from the 8 bytes at
/// `off + 8`, and the kind from the 4-byte type at `off + 16` as Multiboot2
/// numbers them: 1 usable RAM, 2 reserved, 3 ACPI reclaimable, 4 ACPI NVS,
/// 5 bad memory, anything else unknown. In particular a region is usable only
/// when its type field is 1.
pub proof fn lemma_entry_fields(b: Seq<u8>, off: int)
    requires
        0 <= off,
        off + 24 <= b.len(),
    ensures
        entry_at(b, off).base == b[off] + 0x100 * b[off + 1] + 0x1_0000 * b[off + 2] + 0x100_0000
            * b[off + 3] + 0x1_0000_0000 * b[off + 4] + 0x100_0000_0000 * b[off + 5]
            + 0x1_0000_0000_0000 * b[off + 6] + 0x100_0000_0000_0000 * b[off + 7],
        entry_at(b, off).length == b[off + 8] + 0x100 * b[off + 9] + 0x1_0000 * b[off + 10]
            + 0x100_0000 * b[off + 11] + 0x1_0000_0000 * b[off + 12] + 0x100_0000_0000 * b[off
            + 13] + 0x1_0000_0000_0000 * b[off + 14] + 0x100_0000_0000_0000 * b[off + 15],
        ({
            let typ = b[off + 16] + 0x100 * b[off + 17] + 0x1_0000 * b[off + 18] + 0x100_0000 * b[off
                + 19];
            &&& (entry_at(b, off).kind == MemoryRegionKind::Usable) == (typ == 1)
            &&& (entry_at(b, off).kind == MemoryRegionKind::Reserved) == (typ == 2)
            &&& (entry_at(b, off).kind == MemoryRegionKind::AcpiReclaimable) == (typ == 3)
            &&& (entry_at(b, off).kind == MemoryRegionKind::Nvs) == (typ == 4)
            &&& (entry_at(b, off).kind == MemoryRegionKind::BadMemory) == (typ == 5)
            &&& (typ == 0 || typ > 5) ==> entry_at(b, off).kind == MemoryRegionKind::Unknown(
                typ as u32,
            )
        }),
{
}

/// Appends the entries of one memory-map tag payload, `[cur, end)` in absolute
/// addresses, to `acc`; `base` is the address of the block's first byte.
///
/// Returns the regions gathered up to the point where parsing stopped and the
/// error that stopped it, if any.
pub open spec fn memory_map_entries(
    info: Seq<u8>,
    base: int,
    cur: int,
    end: int,
    acc: Seq<MemoryRegion>,
) -> (Seq<MemoryRegion>, Option<ParseError>)
    decreases end - cur,
{
    if cur >= end {
        (acc, None)
    } else if cur + MEMORY_MAP_ENTRY_SIZE > end {
        (acc, Some(ParseError::TruncatedTag))
    } else if acc.len() >= MAX_MEMORY_REGIONS {
        (acc, Some(ParseError::TooManyRegions))
    } else {
        memory_map_entries(
            info,
            base,
            cur + MEMORY_MAP_ENTRY_SIZE,
            end,
            acc.push(entry_at(info, cur - base)),
        )
    }
}

/// Appends the entries of the memory-map tag at absolute address `tag` of
/// `size` bytes to `acc`.
pub open spec fn memory_map_tag(
    info: Seq<u8>,
    base: int,
    tag: int,
    size: int,
    acc: Seq<MemoryRegion>,
) -> (Seq<MemoryRegion>, Option<ParseError>) {
    if size < MEMORY_MAP_TAG_HEADER_SIZE {
        (acc, Some(ParseError::TruncatedTag))
    } else if le_u32(info, tag - base + 8) != MEMORY_MAP_ENTRY_SIZE {
        (
            acc,
            Some(ParseError::UnsupportedMemoryMapEntrySize(le_u32(info, tag - base + 8) as u32)),
        )
    } else {
        memory_map_entries(info, base, tag + MEMORY_MAP_TAG_HEADER_SIZE, tag + size, acc)
    }
}

/// Walks the tag list from absolute address `cur` up to `end`, gathering
/// memory-map entries into `acc`; `found` records whether a memory-map tag has
/// been seen.
///
/// Returns the regions gathered and either whether a memory map was found or
/// the error that stopped the walk.
pub open spec fn walk_tags(
    info: Seq<u8>,
    base: int,
    end: int,
    cur: int,
    acc: Seq<MemoryRegion>,
    found: bool,
) -> (Seq<MemoryRegion>, Result<bool, ParseError>)
    decreases end - cur,
{
    if cur >= end {
        (acc, Ok(found))
    } else if cur + TAG_HEADER_SIZE > end {
        (acc, Err(ParseError::TruncatedTag))
    } else {
        let typ = le_u32(info, cur - base);
        let size = le_u32(info, cur - base + 4);
        if size < TAG_HEADER_SIZE {
            (acc, Err(ParseError::InvalidTagSize(size as u32)))
        } else if cur + size > end {
            (acc, Err(ParseError::TruncatedTag))
        } else if typ == TAG_TYPE_END {
            (acc, Ok(found))
        } else {
            let (acc2, err) = if typ == TAG_TYPE_MEMORY_MAP {
                memory_map_tag(info, base, cur, size, acc)
            } else {
                (acc, None)
            };
            let found2 = found || typ == TAG_TYPE_MEMORY_MAP;
            let next = align8(cur + size);
            match err {
                Some(e) => (acc2, Err(e)),
                None => if next < end {
                    walk_tags(info, base, end, next, acc2, found2)
                } else {
                    (acc2, Ok(found2))
                },
            }
        }
    }
}

/// The outcome of parsing the information block `info` found at address
/// `addr` after handoff value `magic`, into a boot-info list that held `old`.
///
/// Returns the region list afterwards and the parse result. The list is left
/// untouched when the magic, the address or the block header is rejected;
/// otherwise it is cleared and holds every entry parsed before the parser
/// stopped.
pub open spec fn parse_outcome(magic: u32, addr: int, info: Seq<u8>, old: Seq<MemoryRegion>) -> (
    Seq<MemoryRegion>,
    Result<(), ParseError>,
) {
    if magic != MULTIBOOT2_MAGIC {
        (old, Err(ParseError::BadMagic(magic)))
    } else if addr == 0 {
        (old, Err(ParseError::TruncatedInfo))
    } else if le_u32(info, 0) < INFO_HEADER_SIZE {
        (old, Err(ParseError::TruncatedInfo))
    } else if addr + le_u32(info, 0) > usize::MAX {
        (old, Err(ParseError::TruncatedTag))
    } else {
        let (regions, r) = walk_tags(
            info,
            addr,
            addr + le_u32(info, 0),
            addr + INFO_HEADER_SIZE,
            Seq::empty(),
            false,
        );
        match r {
            Err(e) => (regions, Err(e)),
            Ok(found) => if found {
                (regions, Ok(()))
            } else {
                (regions, Err(ParseError::MissingMemoryMap))
            },
        }
    }
}

/// What the caller must hand in: the bytes of the information block starting
/// at `addr`, at least its header; once the header is accepted and the block
/// fits in the address space, the whole block, ending at least 8 bytes below
/// the top so that tag alignment cannot overflow.
pub open spec fn info_block_readable(magic: u32, addr: int, info: Seq<u8>) -> bool {
    magic == MULTIBOOT2_MAGIC && addr != 0 ==> {
        &&& info.len() >= INFO_HEADER_SIZE
        &&& le_u32(info, 0) >= INFO_HEADER_SIZE && addr + le_u32(info, 0) <= usize::MAX ==> {
            &&& info.len() >= le_u32(info, 0)
            &&& addr + le_u32(info, 0) + 7 <= usize::MAX
        }
    }
}

fn read_u32(info: &[u8], offset: usize) -> (r: u32)
    requires
        offset + 4 <= info@.len(),
    ensures
        r == le_u32(info@, offset as int),
{
    let _len = info.len();
    let b0 = info[offset] as u32;
    let b1 = info[offset + 1] as u32;
    let b2 = info[offset + 2] as u32;
    let b3 = info[offset + 3] as u32;
    b0 + b1 * 256 + b2 * 65536 + b3 * 16777216
}

fn read_u64(info: &[u8], offset: usize) -> (r: u64)
    requires
        offset + 8 <= info@.len(),
    ensures
        r == le_u64(info@, offset as int),
{
    let _len = info.len();
    let lo = read_u32(info, offset) as u64;
    let hi = read_u32(info, offset + 4) as u64;
    lo + hi * 4294967296
}

/// Parses the Multiboot2 boot-information block into the owned kernel representation.
///
/// `info` holds the bytes of the block located at `info_addr`. Only the memory
/// map is extracted; other tags are skipped after basic bounds validation so
/// the parser stays narrow and easy to audit.
pub fn parse_multiboot2(magic: u32, info_addr: usize, info: &[u8], boot_info: &mut BootInfo) -> (r:
    Result<(), ParseError>)
    requires
        info_block_readable(magic, info_addr as int, info@),
    ensures
        (final(boot_info)@, r) == parse_outcome(magic, info_addr as int, info@, old(boot_info)@),
{
    if magic != MULTIBOOT2_MAGIC {
        return Err(ParseError::BadMagic(magic));
    }
    if info_addr == 0 {
        return Err(ParseError::TruncatedInfo);
    }
    let total_size = read_u32(info, 0) as usize;
    if total_size < INFO_HEADER_SIZE {
        return Err(ParseError::TruncatedInfo);
    }
    let info_end = match info_addr.checked_add(total_size) {
        Some(end) => end,
        None => return Err(ParseError::TruncatedTag),
    };

    // Reset the owned destination so repeated parser calls never preserve
    // stale region data from an earlier attempt.
    *boot_info = BootInfo::new();
    let mut found_memory_map = false;

    let mut current = match info_addr.checked_add(INFO_HEADER_SIZE) {
        Some(c) => c,
        None => return Err(ParseError::TruncatedTag),
    };
    if current > info_end {
        return Err(ParseError::TruncatedTag);
    }
    let ghost start = current as int;

    while current < info_end
        invariant
            info_block_readable(magic, info_addr as int, info@),
            magic == MULTIBOOT2_MAGIC,
            info_addr != 0,
            total_size == le_u32(info@, 0),
            info_end == info_addr + total_size,
            total_size <= info@.len(),
            info_end + 7 <= usize::MAX,
            info_addr + INFO_HEADER_SIZE <= current,
            current <= info_end + 7,
            start == info_addr + INFO_HEADER_SIZE,
            walk_tags(info@, info_addr as int, info_end as int, current as int, boot_info@,
                found_memory_map) == walk_tags(info@, info_addr as int, info_end as int, start,
                Seq::empty(), false),
        decreases info_end + 8 - current,
    {
        let tag_header_end = match current.checked_add(TAG_HEADER_SIZE) {
            Some(e) => e,
            None => return Err(ParseError::TruncatedTag),
        };
        if tag_header_end > info_end {
            return Err(ParseError::TruncatedTag);
        }
        let offset = current - info_addr;
        let typ = read_u32(info, offset);
        let size = read_u32(info, offset + 4);
        if size < TAG_HEADER_SIZE as u32 {
            return Err(ParseError::InvalidTagSize(size));
        }
        let tag_end = match current.checked_add(size as usize) {
            Some(e) => e,
            None => return Err(ParseError::TruncatedTag),
        };
        if tag_end > info_end {
            return Err(ParseError::TruncatedTag);
        }
        if typ == TAG_TYPE_END {
            if !found_memory_map {
                return Err(ParseError::MissingMemoryMap);
            }
            return Ok(());
        }
        if typ == TAG_TYPE_MEMORY_MAP {
            match parse_memory_map_tag(current, size as usize, info_addr, info, boot_info) {
                Ok(()) => {},
                Err(e) => return Err(e),
            }
            found_memory_map = true;
        }
        current = align_up(tag_end, MULTIBOOT_TAG_ALIGN);
    }

    if !found_memory_map {
        return Err(ParseError::MissingMemoryMap);
    }
    Ok(())
}

/// Parses one Multiboot2 memory-map tag at absolute address `tag_addr` into
/// the owned boot-info structure.
fn parse_memory_map_tag(
    tag_addr: usize,
    tag_size: usize,
    info_addr: usize,
    info: &[u8],
    boot_info: &mut BootInfo,
) -> (r: Result<(), ParseError>)
    requires
        info_addr <= tag_addr,
        tag_addr + tag_size <= info_addr + info@.len(),
        tag_addr + tag_size <= usize::MAX,
    ensures
        ({
            let (regions, err) = memory_map_tag(
                info@,
                info_addr as int,
                tag_addr as int,
                tag_size as int,
                old(boot_info)@,
            );
            &&& final(boot_info)@ == regions
            &&& match err {
                Some(e) => r == Err::<(), ParseError>(e),
                None => r is Ok,
            }
        }),
{
    if tag_size < MEMORY_MAP_TAG_HEADER_SIZE {
        return Err(ParseError::TruncatedTag);
    }
    let entry_size = read_u32(info, tag_addr - info_addr + 8);
    if entry_size as usize != MEMORY_MAP_ENTRY_SIZE {
        return Err(ParseError::UnsupportedMemoryMapEntrySize(entry_size));
    }
    let entries_start = match tag_addr.checked_add(MEMORY_MAP_TAG_HEADER_SIZE) {
        Some(s) => s,
        None => return Err(ParseError::TruncatedTag),
    };
    let entries_end = match tag_addr.checked_add(tag_size) {
        Some(e) => e,
        None => return Err(ParseError::TruncatedTag),
    };

    let mut current = entries_start;
    while current < entries_end
        invariant
            info_addr <= tag_addr,
            entries_start == tag_addr + MEMORY_MAP_TAG_HEADER_SIZE,
            tag_size >= MEMORY_MAP_TAG_HEADER_SIZE,
            le_u32(info@, tag_addr - info_addr + 8) == MEMORY_MAP_ENTRY_SIZE,
            entries_end == tag_addr + tag_size,
            entries_end <= info_addr + info@.len(),
            info_addr <= current,
            memory_map_entries(info@, info_addr as int, current as int, entries_end as int,
                boot_info@) == memory_map_entries(info@, info_addr as int, entries_start as int,
                entries_end as int, old(boot_info)@),
        decreases entries_end - current,
    {
        let ghost acc = boot_info@;
        assert(memory_map_entries(info@, info_addr as int, current as int, entries_end as int, acc)
            == if current + MEMORY_MAP_ENTRY_SIZE > entries_end {
            (acc, Some(ParseError::TruncatedTag))
        } else if acc.len() >= MAX_MEMORY_REGIONS {
            (acc, Some(ParseError::TooManyRegions))
        } else {
            memory_map_entries(
                info@,
                info_addr as int,
                current + MEMORY_MAP_ENTRY_SIZE,
                entries_end as int,
                acc.push(entry_at(info@, current - info_addr)),
            )
        });
        let next = match current.checked_add(MEMORY_MAP_ENTRY_SIZE) {
            Some(n) => n,
            None => return Err(ParseError::TruncatedTag),
        };
        if next > entries_end {
            return Err(ParseError::TruncatedTag);
        }
        let offset = current - info_addr;
        let region = MemoryRegion {
            base: read_u64(info, offset),
            length: read_u64(info, offset + 8),
            kind: MemoryRegionKind::from_multiboot_type(read_u32(info, offset + 16)),
        };
        match boot_info.push_region(region) {
            Ok(()) => {},
            Err(e) => return Err(map_boot_info_error(e)),
        }
        current = next;
    }
    Ok(())
}

/// Translates fixed-capacity owned boot-info errors into parser errors.
fn map_boot_info_error(error: BootInfoError) -> (r: ParseError)
    ensures
        r == ParseError::TooManyRegions,
{
    match error {
        BootInfoError::TooManyMemoryRegions => ParseError::TooManyRegions,
    }
}

/// Rounds one address up to the next Multiboot2-required alignment boundary.
fn align_up(value: usize, align: usize) -> (r: usize)
    requires
        align == MULTIBOOT_TAG_ALIGN,
        value + 7 <= usize::MAX,
    ensures
        r == align8(value as int),
{
    let sum = value + (align - 1);
    assert(sum & !7usize == sum - sum % 8) by (bit_vector);
    sum & !(align - 1)
}

/// Once the handoff value, the address and the block header are accepted (the
/// reported size is large enough and fits in the address space), the
/// parse outcome does not depend on what the boot-info list held before: stale
/// regions from an earlier attempt never survive.
pub proof fn lemma_parse_discards_stale_regions(
    magic: u32,
    addr: int,
    info: Seq<u8>,
    old1: Seq<MemoryRegion>,
    old2: Seq<MemoryRegion>,
)
    requires
        magic == MULTIBOOT2_MAGIC,
        addr != 0,
        le_u32(info, 0) >= INFO_HEADER_SIZE,
        addr + le_u32(info, 0) <= usize::MAX,
    ensures
        parse_outcome(magic, addr, info, old1) == parse_outcome(magic, addr, info, old2),
{
}

/// A rejected handoff value or address leaves the boot-info list untouched.
pub proof fn lemma_rejected_handoff_keeps_regions(
    magic: u32,
    addr: int,
    info: Seq<u8>,
    old: Seq<MemoryRegion>,
)
    requires
        magic != MULTIBOOT2_MAGIC || addr == 0,
    ensures
        parse_outcome(magic, addr, info, old).0 == old,
        parse_outcome(magic, addr, info, old).1 is Err,
{
}

} // verus!
