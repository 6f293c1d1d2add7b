use vstd::prelude::*;

use crate::memory::{PhysicalAddress, PhysicalFrame};

verus! {

pub const PAGE_SIZE: u64 = 4096;

/// Entries in one x86_64 paging structure.
pub const ENTRY_COUNT: usize = 512;

/// The bootstrap paging structures live below this physical address, inside the
/// low window that stays identity mapped during early bring-up.
pub const IDENTITY_MAP_LIMIT: u64 = 0x0020_0000;

/// Physical address of the first word of the identity window through which the
/// kernel reaches paging structures. The page at physical address 0 is left
/// out: no reference may point there, and no paging structure lives there.
pub const IDENTITY_WINDOW_START: u64 = 0x1000;

/// 64-bit words in the identity window, from `IDENTITY_WINDOW_START` up to
/// `IDENTITY_MAP_LIMIT`.
pub const IDENTITY_WINDOW_WORDS: usize = 261632;

pub const PRESENT: u64 = 1;

pub const WRITABLE: u64 = 2;

pub const WRITE_THROUGH: u64 = 8;

pub const CACHE_DISABLE: u64 = 16;

/// The physical-address bits (12..51) of a paging entry.
pub const ENTRY_ADDRESS_MASK: u64 = 0x000f_ffff_ffff_f000;

/// Flags of a runtime kernel page mapping: present and writable.
pub const KERNEL_PAGE_FLAGS: u64 = 3;

/// Flags of an MMIO page mapping: present, writable, write-through, uncached.
pub const MMIO_PAGE_FLAGS: u64 = 27;

/// One runtime scratch page inside the existing higher-half stack window.
///
/// Bootstrap code already maps the surrounding P4/P3/P2/P1 paging levels for
/// this 2 MiB window but leaves most P1 entries empty; one of those unused P1
/// slots serves controlled runtime mappings.
pub const RUNTIME_SCRATCH_PAGE_VIRT_ADDR: u64 = 0xffff_ffff_8020_9000;

/// One reserved higher-half slot for one-page MMIO mappings.
pub const RUNTIME_MMIO_PAGE_VIRT_ADDR: u64 = 0xffff_ffff_8020_a000;

/// Reports failure while walking or mutating the current x86_64 page tables.
#[derive(Debug, Clone, Copy, PartialEq, Eq, Structural)]
pub enum MapError {
    UnalignedVirtualAddress,
    UnalignedPhysicalAddress,
    MissingIntermediateTable,
    PageAlreadyMapped,
    PageNotMapped,
    PageTableNotIdentityMapped,
}

/// An entry with value `v` maps or references something.
pub open spec fn entry_present(v: u64) -> bool {
    v & PRESENT != 0
}

/// The physical address held in an entry with value `v`.
pub open spec fn entry_address(v: u64) -> u64 {
    v & ENTRY_ADDRESS_MASK
}

/// One x86_64 paging entry.
#[derive(Clone, Copy, Debug, PartialEq, Eq, Structural)]
pub struct PageTableEntry(u64);

impl View for PageTableEntry {
    type V = u64;

    /// The raw 64-bit entry value.
    closed spec fn view(&self) -> u64 {
        self.0
    }
}

impl PageTableEntry {
    pub fn empty() -> (r: Self)
        ensures
            r@ == 0,
    {
        PageTableEntry(0)
    }

    pub fn is_present(self) -> (r: bool)
        ensures
            r == entry_present(self@),
    {
        self.0 & PRESENT != 0
    }

    pub fn address(self) -> (r: PhysicalAddress)
        ensures
            r@ == entry_address(self@),
    {
        PhysicalAddress::new(self.0 & ENTRY_ADDRESS_MASK)
    }

    /// Points this entry at `frame` with `flags`.
    pub fn set_frame(&mut self, frame: PhysicalFrame, flags: u64)
        ensures
            final(self)@ == frame@ | flags,
    {
        self.0 = frame.start_address().as_u64() | flags;
    }

    /// Points this entry at the physical address `addr` with `flags`.
    pub fn set_address(&mut self, addr: PhysicalAddress, flags: u64)
        ensures
            final(self)@ == addr@ | flags,
    {
        self.0 = addr.as_u64() | flags;
    }
}

/// An entry built from a frame-aligned physical address below 2^52 and flags
/// outside the address bits gives back that address, and is present exactly
/// when the flags say so.
pub proof fn lemma_entry_round_trip(addr: u64, flags: u64)
    requires
        addr % 4096 == 0,
        addr < 0x0010_0000_0000_0000,
        flags & ENTRY_ADDRESS_MASK == 0,
    ensures
        entry_address(addr | flags) == addr,
        entry_present(addr | flags) == entry_present(flags),
{
    assert((addr | flags) & 0x000f_ffff_ffff_f000u64 == addr) by (bit_vector)
        requires
            addr % 4096 == 0,
            addr < 0x0010_0000_0000_0000u64,
            flags & 0x000f_ffff_ffff_f000u64 == 0,
    ;
    assert(((addr | flags) & 1u64 != 0) == (flags & 1u64 != 0)) by (bit_vector)
        requires
            addr % 4096 == 0,
    ;
}

pub open spec fn p4_index_of(va: u64) -> int {
    ((va >> 39u64) & 0x1ffu64) as int
}

pub open spec fn p3_index_of(va: u64) -> int {
    ((va >> 30u64) & 0x1ffu64) as int
}

pub open spec fn p2_index_of(va: u64) -> int {
    ((va >> 21u64) & 0x1ffu64) as int
}

pub open spec fn p1_index_of(va: u64) -> int {
    ((va >> 12u64) & 0x1ffu64) as int
}

fn p4_index(addr: u64) -> (r: usize)
    ensures
        r == p4_index_of(addr),
        r < ENTRY_COUNT,
{
    assert((addr >> 39u64) & 0x1ffu64 < 512) by (bit_vector);
    ((addr >> 39) & 0x1ff) as usize
}

fn p3_index(addr: u64) -> (r: usize)
    ensures
        r == p3_index_of(addr),
        r < ENTRY_COUNT,
{
    assert((addr >> 30u64) & 0x1ffu64 < 512) by (bit_vector);
    ((addr >> 30) & 0x1ff) as usize
}

fn p2_index(addr: u64) -> (r: usize)
    ensures
        r == p2_index_of(addr),
        r < ENTRY_COUNT,
{
    assert((addr >> 21u64) & 0x1ffu64 < 512) by (bit_vector);
    ((addr >> 21) & 0x1ff) as usize
}

fn p1_index(addr: u64) -> (r: usize)
    ensures
        r == p1_index_of(addr),
        r < ENTRY_COUNT,
{
    assert((addr >> 12u64) & 0x1ffu64 < 512) by (bit_vector);
    ((addr >> 12) & 0x1ff) as usize
}

/// The paging structures of the current address space as the kernel reaches
/// them: the physical address of the top-level table, and the identity window
/// word by word, starting at `IDENTITY_WINDOW_START`.
pub struct PageTablesView {
    /// Physical address of the top-level table.
    pub p4: u64,
    /// The identity window, word by word.
    pub words: Seq<u64>,
}

/// The page tables rooted at `p4` as seen through the identity window `words`.
pub open spec fn tables_view(p4: PhysicalAddress, words: Seq<u64>) -> PageTablesView {
    PageTablesView { p4: p4@, words }
}

/// The paging structure at physical address `phys`, if the kernel can reach it
/// through the identity-mapped window.
pub open spec fn table_at(phys: u64) -> Result<u64, MapError> {
    if phys % 4096 != 0 {
        Err(MapError::UnalignedPhysicalAddress)
    } else if phys < IDENTITY_WINDOW_START || phys >= IDENTITY_MAP_LIMIT {
        Err(MapError::PageTableNotIdentityMapped)
    } else {
        Ok(phys)
    }
}

/// The window word of entry `index` of the paging structure at `table`.
pub open spec fn slot_of(table: u64, index: int) -> int {
    (table - IDENTITY_WINDOW_START) / 8 + index
}

/// The paging structure referenced by entry `index` of the one at `table`.
pub open spec fn next_table_at(words: Seq<u64>, table: u64, index: int) -> Result<u64, MapError> {
    let e = words[slot_of(table, index)];
    if !entry_present(e) {
        Err(MapError::MissingIntermediateTable)
    } else {
        table_at(entry_address(e))
    }
}

/// The last-level table that translates `va`, found by walking from the top
/// level.
pub open spec fn p1_table_of(t: PageTablesView, va: u64) -> Result<u64, MapError> {
    match table_at(t.p4) {
        Err(e) => Err(e),
        Ok(p4) => match next_table_at(t.words, p4, p4_index_of(va)) {
            Err(e) => Err(e),
            Ok(p3) => match next_table_at(t.words, p3, p3_index_of(va)) {
                Err(e) => Err(e),
                Ok(p2) => next_table_at(t.words, p2, p2_index_of(va)),
            },
        },
    }
}

/// The window word holding the last-level entry for `va`, if the walk succeeds.
pub open spec fn leaf_slot(t: PageTablesView, va: u64) -> Result<int, MapError> {
    match p1_table_of(t, va) {
        Err(e) => Err(e),
        Ok(p1) => Ok(slot_of(p1, p1_index_of(va))),
    }
}

/// The physical page the current tables map `va`'s page to, if any.
pub open spec fn translation(t: PageTablesView, va: u64) -> Option<u64> {
    match leaf_slot(t, va) {
        Ok(s) => if entry_present(t.words[s]) {
            Some(entry_address(t.words[s]))
        } else {
            None
        },
        Err(_) => None,
    }
}

/// The outcome of installing the last-level entry `value` for the page at `va`.
pub open spec fn map_outcome(t: PageTablesView, va: u64, value: u64) -> (
    PageTablesView,
    Result<(), MapError>,
) {
    if va % 4096 != 0 {
        (t, Err(MapError::UnalignedVirtualAddress))
    } else {
        match leaf_slot(t, va) {
            Err(e) => (t, Err(e)),
            Ok(s) => if entry_present(t.words[s]) {
                (t, Err(MapError::PageAlreadyMapped))
            } else {
                (PageTablesView { words: t.words.update(s, value), ..t }, Ok(()))
            },
        }
    }
}

/// The outcome of removing the mapping of the page at `va`.
pub open spec fn unmap_outcome(t: PageTablesView, va: u64) -> (PageTablesView, Result<(), MapError>) {
    if va % 4096 != 0 {
        (t, Err(MapError::UnalignedVirtualAddress))
    } else {
        match leaf_slot(t, va) {
            Err(e) => (t, Err(e)),
            Ok(s) => if !entry_present(t.words[s]) {
                (t, Err(MapError::PageNotMapped))
            } else {
                (PageTablesView { words: t.words.update(s, 0), ..t }, Ok(()))
            },
        }
    }
}

/// The outcome of mapping the MMIO page at physical `phys` at `va`.
pub open spec fn map_mmio_outcome(t: PageTablesView, va: u64, phys: u64) -> (
    PageTablesView,
    Result<(), MapError>,
) {
    if va % 4096 != 0 {
        (t, Err(MapError::UnalignedVirtualAddress))
    } else if phys % 4096 != 0 {
        (t, Err(MapError::UnalignedPhysicalAddress))
    } else {
        map_outcome(t, va, phys | MMIO_PAGE_FLAGS)
    }
}

/// Reinterprets one paging-structure physical page through the identity window.
fn page_table_from_identity_mapped_phys(phys_addr: PhysicalAddress) -> (r: Result<u64, MapError>)
    ensures
        r == table_at(phys_addr@),
{
    if !phys_addr.is_aligned() {
        return Err(MapError::UnalignedPhysicalAddress);
    }
    if phys_addr.as_u64() < IDENTITY_WINDOW_START || phys_addr.as_u64() >= IDENTITY_MAP_LIMIT {
        return Err(MapError::PageTableNotIdentityMapped);
    }
    Ok(phys_addr.as_u64())
}

/// Reads entry `index` of the reachable paging structure at `table`.
fn entry_of(window: &[u64], table: u64, index: usize) -> (r: PageTableEntry)
    requires
        window@.len() == IDENTITY_WINDOW_WORDS,
        table_at(table) == Ok::<u64, MapError>(table),
        index < ENTRY_COUNT,
    ensures
        r@ == window@[slot_of(table, index as int)],
        0 <= slot_of(table, index as int) < IDENTITY_WINDOW_WORDS,
{
    let slot = ((table - IDENTITY_WINDOW_START) / 8) as usize + index;
    PageTableEntry(window[slot])
}

/// Follows one present paging entry to the next lower-level page table.
fn next_table(entry: PageTableEntry) -> (r: Result<u64, MapError>)
    ensures
        r == (if !entry_present(entry@) {
            Err(MapError::MissingIntermediateTable)
        } else {
            table_at(entry_address(entry@))
        }),
{
    if !entry.is_present() {
        return Err(MapError::MissingIntermediateTable);
    }
    page_table_from_identity_mapped_phys(entry.address())
}

fn p1_table_for_virtual_address(p4_table: PhysicalAddress, window: &[u64], virt_addr: u64) -> (r:
    Result<u64, MapError>)
    requires
        window@.len() == IDENTITY_WINDOW_WORDS,
    ensures
        r == p1_table_of(tables_view(p4_table, window@), virt_addr),
        r matches Ok(p1) ==> table_at(p1) == Ok::<u64, MapError>(p1),
{
    let p4 = page_table_from_identity_mapped_phys(p4_table)?;
    let p3 = next_table(entry_of(window, p4, p4_index(virt_addr)))?;
    let p2 = next_table(entry_of(window, p3, p3_index(virt_addr)))?;
    next_table(entry_of(window, p2, p2_index(virt_addr)))
}

/// Finds the last-level entry for `virt_addr` and its window word.
fn leaf_entry(p4_table: PhysicalAddress, window: &[u64], virt_addr: u64) -> (r: Result<
    (usize, PageTableEntry),
    MapError,
>)
    requires
        window@.len() == IDENTITY_WINDOW_WORDS,
    ensures
        match leaf_slot(tables_view(p4_table, window@), virt_addr) {
            Err(e) => r == Err::<(usize, PageTableEntry), MapError>(e),
            Ok(s) => r matches Ok((slot, entry)) && slot == s && entry@ == window@[s] && slot
                < IDENTITY_WINDOW_WORDS,
        },
{
    let p1 = p1_table_for_virtual_address(p4_table, window, virt_addr)?;
    let index = p1_index(virt_addr);
    let entry = entry_of(window, p1, index);
    Ok((((p1 - IDENTITY_WINDOW_START) / 8) as usize + index, entry))
}

/// Maps one 4 KiB kernel page at `virt_addr` to `frame` as present+writable, in
/// the page tables rooted at `p4_table` and reached through the identity
/// window `window`.
///
/// The caller flushes the TLB entry for `virt_addr` after success.
pub fn map_kernel_page(
    p4_table: PhysicalAddress,
    window: &mut [u64],
    virt_addr: u64,
    frame: PhysicalFrame,
) -> (r: Result<(), MapError>)
    requires
        old(window)@.len() == IDENTITY_WINDOW_WORDS,
    ensures
        (tables_view(p4_table, final(window)@), r) == map_outcome(
            tables_view(p4_table, old(window)@),
            virt_addr,
            frame@ | KERNEL_PAGE_FLAGS,
        ),
{
    if !PhysicalAddress::new(virt_addr).is_aligned() {
        return Err(MapError::UnalignedVirtualAddress);
    }
    let (slot, entry) = leaf_entry(p4_table, window, virt_addr)?;
    if entry.is_present() {
        return Err(MapError::PageAlreadyMapped);
    }
    assert(1u64 | 2u64 == 3u64) by (bit_vector);
    let mut updated = entry;
    updated.set_frame(frame, PRESENT | WRITABLE);
    window[slot] = updated.0;
    Ok(())
}

/// Maps one 4 KiB MMIO page at `virt_addr` to the aligned physical `phys_addr`,
/// in the page tables rooted at `p4_table` and reached through `window`.
///
/// The caller flushes the TLB entry for `virt_addr` after success.
pub fn map_mmio_page(
    p4_table: PhysicalAddress,
    window: &mut [u64],
    virt_addr: u64,
    phys_addr: PhysicalAddress,
) -> (r: Result<(), MapError>)
    requires
        old(window)@.len() == IDENTITY_WINDOW_WORDS,
    ensures
        (tables_view(p4_table, final(window)@), r) == map_mmio_outcome(
            tables_view(p4_table, old(window)@),
            virt_addr,
            phys_addr@,
        ),
{
    if !PhysicalAddress::new(virt_addr).is_aligned() {
        return Err(MapError::UnalignedVirtualAddress);
    }
    if !phys_addr.is_aligned() {
        return Err(MapError::UnalignedPhysicalAddress);
    }
    let (slot, entry) = leaf_entry(p4_table, window, virt_addr)?;
    if entry.is_present() {
        return Err(MapError::PageAlreadyMapped);
    }
    assert(1u64 | 2u64 | 8u64 | 16u64 == 27u64) by (bit_vector);
    let mut updated = entry;
    updated.set_address(phys_addr, PRESENT | WRITABLE | WRITE_THROUGH | CACHE_DISABLE);
    window[slot] = updated.0;
    Ok(())
}

/// Removes one present 4 KiB kernel or MMIO mapping from the current P1 table,
/// in the page tables rooted at `p4_table` and reached through `window`.
///
/// The caller flushes the TLB entry for `virt_addr` after success.
pub fn unmap_kernel_page(p4_table: PhysicalAddress, window: &mut [u64], virt_addr: u64) -> (r:
    Result<(), MapError>)
    requires
        old(window)@.len() == IDENTITY_WINDOW_WORDS,
    ensures
        (tables_view(p4_table, final(window)@), r) == unmap_outcome(
            tables_view(p4_table, old(window)@),
            virt_addr,
        ),
{
    if !PhysicalAddress::new(virt_addr).is_aligned() {
        return Err(MapError::UnalignedVirtualAddress);
    }
    let (slot, entry) = leaf_entry(p4_table, window, virt_addr)?;
    if !entry.is_present() {
        return Err(MapError::PageNotMapped);
    }
    window[slot] = PageTableEntry::empty().0;
    Ok(())
}

/// Each level's index of a virtual address selects one of the 512 entries.
pub proof fn lemma_indices_in_table(va: u64)
    ensures
        0 <= p4_index_of(va) < 512,
        0 <= p3_index_of(va) < 512,
        0 <= p2_index_of(va) < 512,
        0 <= p1_index_of(va) < 512,
{
    assert((va >> 39u64) & 0x1ffu64 < 512) by (bit_vector);
    assert((va >> 30u64) & 0x1ffu64 < 512) by (bit_vector);
    assert((va >> 21u64) & 0x1ffu64 < 512) by (bit_vector);
    assert((va >> 12u64) & 0x1ffu64 < 512) by (bit_vector);
}

/// The walk selects entries by the 9-bit fields of the virtual address: the
/// last-level index is bits 12..20 (the page number modulo 512), then bits
/// 21..29, 30..38 and 39..47 for the upper levels.
pub proof fn lemma_index_fields(va: u64)
    ensures
        p1_index_of(va) == (va / 0x1000) % 512,
        p2_index_of(va) == (va / 0x20_0000) % 512,
        p3_index_of(va) == (va / 0x4000_0000) % 512,
        p4_index_of(va) == (va / 0x80_0000_0000) % 512,
{
    assert((va >> 12u64) & 0x1ffu64 == (va / 0x1000u64) % 512u64) by (bit_vector);
    assert((va >> 21u64) & 0x1ffu64 == (va / 0x20_0000u64) % 512u64) by (bit_vector);
    assert((va >> 30u64) & 0x1ffu64 == (va / 0x4000_0000u64) % 512u64) by (bit_vector);
    assert((va >> 39u64) & 0x1ffu64 == (va / 0x80_0000_0000u64) % 512u64) by (bit_vector);
}

/// The window words of the three directory entries the walk for `va` reads
/// (top level, second level, third level), when the walk gets that far.
pub open spec fn walk_entry_slots(t: PageTablesView, va: u64) -> (int, int, int) {
    let s4 = slot_of(t.p4, p4_index_of(va));
    let s3 = slot_of(entry_address(t.words[s4]), p3_index_of(va));
    let s2 = slot_of(entry_address(t.words[s3]), p2_index_of(va));
    (s4, s3, s2)
}

/// The walk for `va` succeeds and its last-level entry is none of the
/// directory entries the walk reads on its way.
pub open spec fn leaf_off_walk(t: PageTablesView, va: u64) -> bool {
    match leaf_slot(t, va) {
        Ok(s) => {
            let (s4, s3, s2) = walk_entry_slots(t, va);
            s != s4 && s != s3 && s != s2
        },
        Err(_) => false,
    }
}

/// A non-present last-level entry is none of the (present) directory entries
/// its walk reads.
pub proof fn lemma_absent_leaf_is_off_walk(t: PageTablesView, va: u64)
    requires
        t.words.len() == IDENTITY_WINDOW_WORDS,
        leaf_slot(t, va) is Ok,
        !entry_present(t.words[leaf_slot(t, va)->Ok_0]),
    ensures
        leaf_off_walk(t, va),
{
    lemma_indices_in_table(va);
}

/// Writing any value into the last-level entry of a walk that does not pass
/// through that entry leaves the walk for `va` unchanged.
pub proof fn lemma_walk_survives_leaf_write(t: PageTablesView, va: u64, s: int, v: u64)
    requires
        t.words.len() == IDENTITY_WINDOW_WORDS,
        leaf_slot(t, va) == Ok::<int, MapError>(s),
        leaf_off_walk(t, va),
    ensures
        leaf_slot(PageTablesView { words: t.words.update(s, v), ..t }, va) == Ok::<int, MapError>(s),
        leaf_off_walk(PageTablesView { words: t.words.update(s, v), ..t }, va),
{
    let n = PageTablesView { words: t.words.update(s, v), ..t };
    lemma_indices_in_table(va);
    let p4 = t.p4;
    let s4 = slot_of(p4, p4_index_of(va));
    assert(n.words[s4] == t.words[s4]);
    let p3 = entry_address(t.words[s4]);
    let s3 = slot_of(p3, p3_index_of(va));
    assert(n.words[s3] == t.words[s3]);
    let p2 = entry_address(t.words[s3]);
    let s2 = slot_of(p2, p2_index_of(va));
    assert(n.words[s2] == t.words[s2]);
}

/// After mapping the page at `va` to a frame below 2^52, the tables translate
/// `va` to that frame.
pub proof fn lemma_map_then_translate(t: PageTablesView, va: u64, frame: u64, flags: u64)
    requires
        t.words.len() == IDENTITY_WINDOW_WORDS,
        frame % 4096 == 0,
        frame < 0x0010_0000_0000_0000,
        flags == KERNEL_PAGE_FLAGS || flags == MMIO_PAGE_FLAGS,
        map_outcome(t, va, frame | flags).1 is Ok,
    ensures
        translation(map_outcome(t, va, frame | flags).0, va) == Some(frame),
{
    let s = leaf_slot(t, va)->Ok_0;
    lemma_indices_in_table(va);
    lemma_absent_leaf_is_off_walk(t, va);
    lemma_walk_survives_leaf_write(t, va, s, frame | flags);
    assert(3u64 & 0x000f_ffff_ffff_f000u64 == 0) by (bit_vector);
    assert(27u64 & 0x000f_ffff_ffff_f000u64 == 0) by (bit_vector);
    assert(3u64 & 1u64 != 0) by (bit_vector);
    assert(27u64 & 1u64 != 0) by (bit_vector);
    lemma_entry_round_trip(frame, flags);
}

/// A page just mapped can be unmapped again: unmapping clears exactly the
/// entry the mapping wrote, after which `va` no longer translates.
pub proof fn lemma_map_then_unmap(t: PageTablesView, va: u64, value: u64)
    requires
        t.words.len() == IDENTITY_WINDOW_WORDS,
        value & PRESENT != 0,
        map_outcome(t, va, value).1 is Ok,
    ensures
        unmap_outcome(map_outcome(t, va, value).0, va).1 is Ok,
        unmap_outcome(map_outcome(t, va, value).0, va).0 == (PageTablesView {
            words: t.words.update(leaf_slot(t, va)->Ok_0, 0),
            ..t
        }),
        translation(unmap_outcome(map_outcome(t, va, value).0, va).0, va) is None,
        leaf_off_walk(map_outcome(t, va, value).0, va),
{
    let s = leaf_slot(t, va)->Ok_0;
    lemma_absent_leaf_is_off_walk(t, va);
    lemma_walk_survives_leaf_write(t, va, s, value);
    lemma_indices_in_table(va);
    let m = map_outcome(t, va, value).0;
    assert(m.words.update(s, 0) =~= t.words.update(s, 0));
    lemma_walk_survives_leaf_write(t, va, s, 0);
    assert(0u64 & 1u64 == 0) by (bit_vector);
}

/// A page that is already mapped cannot be mapped again.
pub proof fn lemma_map_twice_rejected(t: PageTablesView, va: u64, value: u64, other: u64)
    requires
        t.words.len() == IDENTITY_WINDOW_WORDS,
        value & PRESENT != 0,
        map_outcome(t, va, value).1 is Ok,
    ensures
        map_outcome(map_outcome(t, va, value).0, va, other).1 == Err::<(), MapError>(
            MapError::PageAlreadyMapped,
        ),
{
    let s = leaf_slot(t, va)->Ok_0;
    lemma_indices_in_table(va);
    lemma_absent_leaf_is_off_walk(t, va);
    lemma_walk_survives_leaf_write(t, va, s, value);
}

/// A page just unmapped cannot be unmapped again, as long as its last-level
/// entry is not itself one of the directory entries on its walk.
pub proof fn lemma_unmap_twice_rejected(t: PageTablesView, va: u64)
    requires
        t.words.len() == IDENTITY_WINDOW_WORDS,
        unmap_outcome(t, va).1 is Ok,
        leaf_off_walk(t, va),
    ensures
        unmap_outcome(unmap_outcome(t, va).0, va).1 == Err::<(), MapError>(MapError::PageNotMapped),
{
    let s = leaf_slot(t, va)->Ok_0;
    lemma_indices_in_table(va);
    lemma_walk_survives_leaf_write(t, va, s, 0);
    assert(0u64 & 1u64 == 0) by (bit_vector);
}

} // verus!
