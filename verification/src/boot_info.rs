use vstd::prelude::*;

verus! {

/// How many boot-time memory regions the owned `BootInfo` can hold.
pub const MAX_MEMORY_REGIONS: usize = 64;

/// Classifies one boot-time physical memory region.
///
/// These variants intentionally stay close to the Multiboot2 memory-map kinds:
/// the kernel only needs a small owned handoff for its memory manager, not a
/// broader bootloader abstraction.
#[derive(Clone, Copy, Debug, PartialEq, Eq, Structural)]
pub enum MemoryRegionKind {
    Usable,
    Reserved,
    AcpiReclaimable,
    Nvs,
    BadMemory,
    Unknown(u32),
}

/// The kind that a Multiboot2 memory-map type code denotes.
pub open spec fn kind_of_multiboot_type(raw: u32) -> MemoryRegionKind {
    if raw == 1 {
        MemoryRegionKind::Usable
    } else if raw == 2 {
        MemoryRegionKind::Reserved
    } else if raw == 3 {
        MemoryRegionKind::AcpiReclaimable
    } else if raw == 4 {
        MemoryRegionKind::Nvs
    } else if raw == 5 {
        MemoryRegionKind::BadMemory
    } else {
        MemoryRegionKind::Unknown(raw)
    }
}

/// The short label used for a kind in boot-time memory-map logging.
pub open spec fn kind_label(kind: MemoryRegionKind) -> Seq<char> {
    match kind {
        MemoryRegionKind::Usable => "usable"@,
        MemoryRegionKind::Reserved => "reserved"@,
        MemoryRegionKind::AcpiReclaimable => "acpi-reclaimable"@,
        MemoryRegionKind::Nvs => "nvs"@,
        MemoryRegionKind::BadMemory => "bad-memory"@,
        MemoryRegionKind::Unknown(_) => "unknown"@,
    }
}

impl MemoryRegionKind {
    /// Converts one Multiboot2 memory-map type code into the owned kernel form.
    pub fn from_multiboot_type(raw: u32) -> (r: Self)
        ensures
            r == kind_of_multiboot_type(raw),
    {
        match raw {
            1 => MemoryRegionKind::Usable,
            2 => MemoryRegionKind::Reserved,
            3 => MemoryRegionKind::AcpiReclaimable,
            4 => MemoryRegionKind::Nvs,
            5 => MemoryRegionKind::BadMemory,
            other => MemoryRegionKind::Unknown(other),
        }
    }

    /// Returns a stable short string for boot-time memory-map logging.
    pub fn as_str(self) -> (r: &'static str)
        ensures
            r@ == kind_label(self),
    {
        match self {
            MemoryRegionKind::Usable => "usable",
            MemoryRegionKind::Reserved => "reserved",
            MemoryRegionKind::AcpiReclaimable => "acpi-reclaimable",
            MemoryRegionKind::Nvs => "nvs",
            MemoryRegionKind::BadMemory => "bad-memory",
            MemoryRegionKind::Unknown(_) => "unknown",
        }
    }
}

/// Describes one owned boot-time physical memory region.
#[derive(Clone, Copy, Debug, PartialEq, Eq, Structural)]
pub struct MemoryRegion {
    pub base: u64,
    pub length: u64,
    pub kind: MemoryRegionKind,
}

/// Reports failure while populating the owned `BootInfo` structure.
#[derive(Debug, Clone, Copy, PartialEq, Eq, Structural)]
pub enum BootInfoError {
    TooManyMemoryRegions,
}

/// Holds the small owned boot metadata preserved after the bootloader handoff.
///
/// The structure keeps only the memory-map data, in fixed storage of
/// `MAX_MEMORY_REGIONS` slots, so later kernel code depends neither on raw
/// Multiboot2 memory nor on a heap.
pub struct BootInfo {
    regions: [MemoryRegion; MAX_MEMORY_REGIONS],
    region_count: usize,
}

impl View for BootInfo {
    type V = Seq<MemoryRegion>;

    /// The populated memory regions, in the order they were pushed.
    closed spec fn view(&self) -> Seq<MemoryRegion> {
        self.regions@.subrange(0, self.region_count as int)
    }
}

impl BootInfo {
    #[verifier::type_invariant]
    spec fn within_capacity(self) -> bool {
        self.region_count <= MAX_MEMORY_REGIONS
    }

    /// Creates an empty boot-info container with fixed backing storage.
    pub fn new() -> (r: Self)
        ensures
            r@ == Seq::<MemoryRegion>::empty(),
    {
        let unused = MemoryRegion { base: 0, length: 0, kind: MemoryRegionKind::Reserved };
        let r = BootInfo { regions: [unused; MAX_MEMORY_REGIONS], region_count: 0 };
        assert(r@ =~= Seq::<MemoryRegion>::empty());
        r
    }

    /// Appends one parsed memory region to the owned boot-info list.
    ///
    /// This fails, leaving the list unchanged, instead of silently truncating
    /// when the fixed capacity is exhausted.
    pub fn push_region(&mut self, region: MemoryRegion) -> (r: Result<(), BootInfoError>)
        ensures
            old(self)@.len() >= MAX_MEMORY_REGIONS ==> r == Err::<(), BootInfoError>(
                BootInfoError::TooManyMemoryRegions,
            ) && final(self)@ == old(self)@,
            old(self)@.len() < MAX_MEMORY_REGIONS ==> r is Ok && final(self)@ == old(
                self,
            )@.push(region),
    {
        proof {
            use_type_invariant(&*self);
        }
        if self.region_count >= MAX_MEMORY_REGIONS {
            return Err(BootInfoError::TooManyMemoryRegions);
        }
        let ghost before = self.regions@;
        let count = self.region_count;
        self.regions[count] = region;
        self.region_count = count + 1;
        assert(self@ =~= before.subrange(0, count as int).push(region));
        Ok(())
    }

    /// Returns only the populated prefix of parsed memory regions.
    pub fn regions(&self) -> (r: &[MemoryRegion])
        ensures
            r@ == self@,
            r@.len() <= MAX_MEMORY_REGIONS,
    {
        proof {
            use_type_invariant(self);
        }
        vstd::slice::slice_subrange(self.regions.as_slice(), 0, self.region_count)
    }

    /// Reports how many memory regions are currently populated.
    pub fn region_count(&self) -> (r: usize)
        ensures
            r == self@.len(),
            r <= MAX_MEMORY_REGIONS,
    {
        proof {
            use_type_invariant(self);
        }
        self.region_count
    }

    /// Reports whether the boot-info structure currently holds any regions.
    pub fn is_empty(&self) -> (r: bool)
        ensures
            r == (self@.len() == 0),
    {
        proof {
            use_type_invariant(self);
        }
        self.region_count == 0
    }
}

} // verus!
