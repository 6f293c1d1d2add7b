use vstd::prelude::*;

use crate::boot_info::{BootInfo, MAX_MEMORY_REGIONS, MemoryRegion, MemoryRegionKind};
use crate::memory::frame::{
    FRAME_SIZE, LAST_FRAME_START, PhysicalAddress, PhysicalFrame, align_down_value,
    align_up_value,
};

verus! {

/// Reports failure while normalizing usable boot-time regions into frame ranges.
#[derive(Debug, Clone, Copy, PartialEq, Eq, Structural)]
pub enum AllocatorInitError {
    RegionOverflow,
    BadFrameRegion,
    TooManyAllocatableRegions,
}

/// Reports failure while returning one runtime-owned frame to the allocator.
#[derive(Debug, Clone, Copy, PartialEq, Eq, Structural)]
pub enum FreeError {
    ReservedFrame,
    UnmanagedFrame,
    FrameAlreadyFreed,
    FreedFrameOverflow,
}

/// How many kernel-owned physical spans the allocator must skip: the low
/// bootstrap span and the higher-half kernel image span.
pub const RESERVED_RANGE_COUNT: usize = 2;

/// How many pieces one usable region may split into around the reserved spans.
pub const MAX_REGION_FRAGMENTS: usize = RESERVED_RANGE_COUNT + 1;

/// How many normalized frame regions, and how many freed frames, the allocator holds.
pub const MAX_ALLOCATABLE_FRAME_REGIONS: usize = MAX_MEMORY_REGIONS * MAX_REGION_FRAGMENTS;

/// One physical half-open byte range `[start, end_exclusive)`.
#[derive(Clone, Copy, Debug, PartialEq, Eq, Structural)]
pub struct PhysicalRange {
    pub start: PhysicalAddress,
    pub end_exclusive: PhysicalAddress,
}

/// Builds one physical half-open range `[start, end_exclusive)`.
pub fn physical_range(start: PhysicalAddress, end_exclusive: PhysicalAddress) -> (r: PhysicalRange)
    ensures
        r.start == start,
        r.end_exclusive == end_exclusive,
{
    PhysicalRange { start, end_exclusive }
}

/// A range as a pair of integers `(start, end_exclusive)`.
pub open spec fn range_view(r: PhysicalRange) -> (int, int) {
    (r.start@ as int, r.end_exclusive@ as int)
}

pub open spec fn ranges_view(s: Seq<PhysicalRange>) -> Seq<(int, int)> {
    s.map_values(|r: PhysicalRange| range_view(r))
}

/// The ranges present in a pair of optional pieces, in order.
pub open spec fn present_ranges(p: Seq<Option<PhysicalRange>>) -> Seq<(int, int)> {
    (if p[0] is Some {
        seq![range_view(p[0]->0)]
    } else {
        seq![]
    }) + (if p[1] is Some {
        seq![range_view(p[1]->0)]
    } else {
        seq![]
    })
}

/// The parts of `u` that lie outside `r`: `u` itself when the two do not
/// overlap, otherwise the non-empty pieces below and above `r`.
pub open spec fn subtract_spec(u: (int, int), r: (int, int)) -> Seq<(int, int)> {
    if r.1 <= u.0 || r.0 >= u.1 {
        seq![u]
    } else {
        (if u.0 < r.0 {
            seq![(u.0, r.0)]
        } else {
            seq![]
        }) + (if r.1 < u.1 {
            seq![(r.1, u.1)]
        } else {
            seq![]
        })
    }
}

/// Every piece of `frags` with `r` removed, in order.
pub open spec fn subtract_all(frags: Seq<(int, int)>, r: (int, int)) -> Seq<(int, int)>
    decreases frags.len(),
{
    if frags.len() == 0 {
        seq![]
    } else {
        subtract_all(frags.drop_last(), r) + subtract_spec(frags.last(), r)
    }
}

/// The pieces of `u` left after removing the first `k` reserved ranges one
/// after another, or `None` once more than `MAX_REGION_FRAGMENTS` pieces arise.
pub open spec fn fragments_after(u: (int, int), reserved: Seq<(int, int)>, k: nat) -> Option<
    Seq<(int, int)>,
>
    decreases k,
{
    if k == 0 {
        Some(seq![u])
    } else {
        match fragments_after(u, reserved, (k - 1) as nat) {
            None => None,
            Some(fs) => {
                let n = subtract_all(fs, reserved[k - 1]);
                if n.len() > MAX_REGION_FRAGMENTS {
                    None
                } else {
                    Some(n)
                }
            },
        }
    }
}

/// Appends the whole frames of `frag` to the region list `acc`, if any fit.
pub open spec fn push_fragment(acc: Seq<(int, int)>, frag: (int, int)) -> (
    Seq<(int, int)>,
    Option<AllocatorInitError>,
) {
    if frag.0 > LAST_FRAME_START {
        (acc, Some(AllocatorInitError::RegionOverflow))
    } else if align_up_value(frag.0) >= align_down_value(frag.1) {
        (acc, None)
    } else if acc.len() >= MAX_ALLOCATABLE_FRAME_REGIONS {
        (acc, Some(AllocatorInitError::TooManyAllocatableRegions))
    } else {
        (acc.push((align_up_value(frag.0), align_down_value(frag.1))), None)
    }
}

/// Appends the first `k` fragments of `frags` to `acc`, stopping at the first error.
pub open spec fn push_fragments(acc: Seq<(int, int)>, frags: Seq<(int, int)>, k: nat) -> (
    Seq<(int, int)>,
    Option<AllocatorInitError>,
)
    decreases k,
{
    if k == 0 {
        (acc, None)
    } else {
        let (a, e) = push_fragments(acc, frags, (k - 1) as nat);
        if e is Some {
            (a, e)
        } else {
            push_fragment(a, frags[k - 1])
        }
    }
}

/// Appends the allocatable frame regions of one boot-time region to `acc`.
pub open spec fn normalize_region(
    acc: Seq<(int, int)>,
    region: MemoryRegion,
    reserved: Seq<(int, int)>,
) -> (Seq<(int, int)>, Option<AllocatorInitError>) {
    if region.kind != MemoryRegionKind::Usable {
        (acc, None)
    } else if region.base + region.length > u64::MAX {
        (acc, Some(AllocatorInitError::RegionOverflow))
    } else {
        match fragments_after(
            (region.base as int, region.base + region.length),
            reserved,
            reserved.len(),
        ) {
            None => (acc, Some(AllocatorInitError::TooManyAllocatableRegions)),
            Some(fs) => push_fragments(acc, fs, fs.len()),
        }
    }
}

/// The allocatable frame regions of the first `k` boot-time regions, stopping
/// at the first error.
pub open spec fn normalize_regions(
    boot: Seq<MemoryRegion>,
    reserved: Seq<(int, int)>,
    k: nat,
) -> (Seq<(int, int)>, Option<AllocatorInitError>)
    decreases k,
{
    if k == 0 {
        (seq![], None)
    } else {
        let (a, e) = normalize_regions(boot, reserved, (k - 1) as nat);
        if e is Some {
            (a, e)
        } else {
            normalize_region(a, boot[k - 1], reserved)
        }
    }
}

/// `a` lies wholly below or wholly above `r`.
pub open spec fn clear_of(a: (int, int), r: (int, int)) -> bool {
    a.1 <= r.0 || a.0 >= r.1
}

/// `a` lies inside the usable boot-time region `b`.
pub open spec fn inside_usable(a: (int, int), b: MemoryRegion) -> bool {
    &&& b.kind == MemoryRegionKind::Usable
    &&& b.base <= a.0
    &&& a.1 <= b.base + b.length
}

/// The abstract state of the frame allocator.
pub struct FrameAllocatorState {
    /// Normalized allocatable regions `(start, end_exclusive)`, in boot-map order.
    pub regions: Seq<(int, int)>,
    /// Index of the region the monotonic cursor walks.
    pub current_region: int,
    /// The next frame the monotonic cursor hands out, if any.
    pub next_frame: Option<int>,
    /// The reuse stack of freed frames; the last one is reused first.
    pub freed: Seq<int>,
    /// The kernel-owned spans no frame may overlap.
    pub reserved: Seq<(int, int)>,
}

impl FrameAllocatorState {
    /// `f` lies inside one of the allocatable regions.
    pub open spec fn in_region(self, f: int) -> bool {
        exists|i: int| 0 <= i < self.regions.len() && #[trigger] self.regions[i].0 <= f < self.regions[i].1
    }

    /// The frame starting at `f` overlaps one of the reserved spans. The last
    /// frame of the address space, whose end does not fit in a `u64`, never does.
    pub open spec fn reserved_overlap(self, f: int) -> bool {
        &&& f + FRAME_SIZE <= u64::MAX
        &&& exists|j: int|
            0 <= j < self.reserved.len() && f < #[trigger] self.reserved[j].1 && f + FRAME_SIZE
                > self.reserved[j].0
    }

    /// The monotonic cursor has already moved past `f`.
    pub open spec fn handed_out(self, f: int) -> bool {
        if self.regions.len() == 0 {
            false
        } else if self.current_region >= self.regions.len() || self.next_frame is None {
            self.in_region(f)
        } else {
            ||| exists|i: int| 0 <= i < self.current_region && #[trigger] self.regions[i].0 <= f < self.regions[i].1
            ||| self.regions[self.current_region].0 <= f < self.next_frame->0
        }
    }

    /// The frame the next allocation returns, if any.
    pub open spec fn allocation(self) -> Option<int> {
        if self.freed.len() > 0 {
            Some(self.freed.last())
        } else if self.next_frame is None || self.current_region >= self.regions.len() {
            None
        } else {
            self.next_frame
        }
    }

    /// The state after the next allocation.
    pub open spec fn after_allocation(self) -> FrameAllocatorState {
        if self.freed.len() > 0 {
            FrameAllocatorState { freed: self.freed.drop_last(), ..self }
        } else if self.next_frame is None {
            self
        } else if self.current_region >= self.regions.len() {
            FrameAllocatorState { next_frame: None, ..self }
        } else {
            let f = self.next_frame->0;
            if f + FRAME_SIZE > u64::MAX {
                FrameAllocatorState { next_frame: None, ..self }
            } else if f + FRAME_SIZE < self.regions[self.current_region].1 {
                FrameAllocatorState { next_frame: Some(f + FRAME_SIZE), ..self }
            } else if self.current_region + 1 < self.regions.len() {
                FrameAllocatorState {
                    current_region: self.current_region + 1,
                    next_frame: Some(self.regions[self.current_region + 1].0),
                    ..self
                }
            } else {
                FrameAllocatorState {
                    current_region: self.current_region + 1,
                    next_frame: None,
                    ..self
                }
            }
        }
    }

    /// What freeing the frame starting at `f` returns.
    pub open spec fn free_result(self, f: int) -> Result<(), FreeError> {
        if self.reserved_overlap(f) {
            Err(FreeError::ReservedFrame)
        } else if !self.in_region(f) || !self.handed_out(f) {
            Err(FreeError::UnmanagedFrame)
        } else if self.freed.contains(f) {
            Err(FreeError::FrameAlreadyFreed)
        } else if self.freed.len() >= MAX_ALLOCATABLE_FRAME_REGIONS {
            Err(FreeError::FreedFrameOverflow)
        } else {
            Ok(())
        }
    }

    /// The state after freeing the frame starting at `f`.
    pub open spec fn after_free(self, f: int) -> FrameAllocatorState {
        if self.free_result(f) is Ok {
            FrameAllocatorState { freed: self.freed.push(f), ..self }
        } else {
            self
        }
    }

    /// Every region consists of whole frames, lies clear of every reserved span,
    /// the cursor points into the current region, and the reuse stack holds
    /// distinct, handed-out, unreserved frames of the regions.
    pub open spec fn wf(self) -> bool {
        &&& self.regions.len() <= MAX_ALLOCATABLE_FRAME_REGIONS
        &&& self.freed.len() <= MAX_ALLOCATABLE_FRAME_REGIONS
        &&& self.reserved.len() == RESERVED_RANGE_COUNT
        &&& 0 <= self.current_region <= self.regions.len()
        &&& forall|i: int|
            0 <= i < self.regions.len() ==> {
                &&& 0 <= #[trigger] self.regions[i].0 < self.regions[i].1 <= u64::MAX
                &&& self.regions[i].0 % 4096 == 0
                &&& self.regions[i].1 % 4096 == 0
                &&& forall|j: int|
                    0 <= j < self.reserved.len() ==> clear_of(self.regions[i], #[trigger] self.reserved[j])
            }
        &&& self.next_frame matches Some(f) ==> {
            &&& self.current_region < self.regions.len()
            &&& self.regions[self.current_region].0 <= f < self.regions[self.current_region].1
            &&& f % 4096 == 0
        }
        &&& self.freed.no_duplicates()
        &&& forall|k: int|
            0 <= k < self.freed.len() ==> {
                &&& #[trigger] self.freed[k] % 4096 == 0
                &&& self.in_region(self.freed[k])
                &&& self.handed_out(self.freed[k])
                &&& !self.reserved_overlap(self.freed[k])
            }
    }

    /// Every region lies inside some usable region of the boot memory map `boot`.
    pub open spec fn regions_within(self, boot: Seq<MemoryRegion>) -> bool {
        forall|i: int|
            0 <= i < self.regions.len() ==> exists|b: int|
                0 <= b < boot.len() && inside_usable(#[trigger] self.regions[i], boot[b])
    }
}

/// One normalized usable physical-frame interval stored by the allocator.
#[derive(Clone, Copy)]
struct UsableFrameRegion {
    start: PhysicalFrame,
    end_exclusive: PhysicalFrame,
}

spec fn region_view(r: UsableFrameRegion) -> (int, int) {
    (r.start@ as int, r.end_exclusive@ as int)
}

spec fn frame_view(f: PhysicalFrame) -> int {
    f@ as int
}

/// The start address of an optional frame.
pub open spec fn frame_start(f: Option<PhysicalFrame>) -> Option<int> {
    match f {
        Some(fr) => Some(fr@ as int),
        None => None,
    }
}

/// Allocates 4 KiB physical frames from owned usable boot regions with LIFO reuse.
///
/// Regions and freed frames live in fixed storage with explicit counts, so the
/// allocator never needs a heap.
pub struct MonotonicFrameAllocator {
    regions: [UsableFrameRegion; MAX_ALLOCATABLE_FRAME_REGIONS],
    region_count: usize,
    current_region: usize,
    next_frame: Option<PhysicalFrame>,
    freed_frames: [PhysicalFrame; MAX_ALLOCATABLE_FRAME_REGIONS],
    freed_count: usize,
    reserved: [PhysicalRange; RESERVED_RANGE_COUNT],
}

impl View for MonotonicFrameAllocator {
    type V = FrameAllocatorState;

    closed spec fn view(&self) -> FrameAllocatorState {
        FrameAllocatorState {
            regions: Seq::new(self.region_count as nat, |i: int| region_view(self.regions@[i])),
            current_region: self.current_region as int,
            next_frame: frame_start(self.next_frame),
            freed: Seq::new(self.freed_count as nat, |i: int| frame_view(self.freed_frames@[i])),
            reserved: ranges_view(self.reserved@),
        }
    }
}

/// The allocator state right after normalizing the boot memory map `boot`
/// around the reserved spans `reserved`.
pub open spec fn initialized_state(boot: Seq<MemoryRegion>, reserved: Seq<(int, int)>) -> FrameAllocatorState {
    let (regions, err) = normalize_regions(boot, reserved, boot.len());
    FrameAllocatorState {
        regions,
        current_region: 0,
        next_frame: if err is None && regions.len() > 0 {
            Some(regions[0].0)
        } else {
            None
        },
        freed: seq![],
        reserved,
    }
}

/// What normalizing the boot memory map `boot` around `reserved` returns.
pub open spec fn initialization_result(boot: Seq<MemoryRegion>, reserved: Seq<(int, int)>) -> Result<
    (),
    AllocatorInitError,
> {
    match normalize_regions(boot, reserved, boot.len()).1 {
        Some(e) => Err(e),
        None => Ok(()),
    }
}

/// Every range of `s` lies inside `u` and clear of the first `k` reserved spans.
pub open spec fn pieces_of(s: Seq<(int, int)>, u: (int, int), reserved: Seq<(int, int)>, k: int) -> bool {
    forall|i: int|
        0 <= i < s.len() ==> {
            &&& u.0 <= #[trigger] s[i].0
            &&& s[i].1 <= u.1
            &&& forall|j: int| 0 <= j < k ==> clear_of(s[i], #[trigger] reserved[j])
        }
}

proof fn lemma_subtract_all_pieces(frags: Seq<(int, int)>, u: (int, int), reserved: Seq<(int, int)>, k: int)
    requires
        0 <= k < reserved.len(),
        pieces_of(frags, u, reserved, k),
    ensures
        pieces_of(subtract_all(frags, reserved[k]), u, reserved, k + 1),
    decreases frags.len(),
{
    if frags.len() > 0 {
        let rest = frags.drop_last();
        assert(pieces_of(rest, u, reserved, k)) by {
            assert forall|i: int| 0 <= i < rest.len() implies u.0 <= #[trigger] rest[i].0 by {
                assert(rest[i] == frags[i]);
            }
        }
        lemma_subtract_all_pieces(rest, u, reserved, k);
        let last = frags.last();
        assert(frags[frags.len() - 1] == last);
        let all = subtract_all(frags, reserved[k]);
        let head = subtract_all(rest, reserved[k]);
        let tail = subtract_spec(last, reserved[k]);
        assert(all == head + tail);
        assert forall|i: int| 0 <= i < all.len() implies {
            &&& u.0 <= #[trigger] all[i].0
            &&& all[i].1 <= u.1
            &&& forall|j: int| 0 <= j < k + 1 ==> clear_of(all[i], #[trigger] reserved[j])
        } by {
            if i < head.len() {
                assert(all[i] == head[i]);
            } else {
                assert(all[i] == tail[i - head.len()]);
            }
        }
    }
}

proof fn lemma_fragments_after_pieces(u: (int, int), reserved: Seq<(int, int)>, k: nat)
    requires
        k <= reserved.len(),
    ensures
        fragments_after(u, reserved, k) matches Some(fs) ==> pieces_of(fs, u, reserved, k as int),
    decreases k,
{
    if k > 0 {
        lemma_fragments_after_pieces(u, reserved, (k - 1) as nat);
        if let Some(fs) = fragments_after(u, reserved, (k - 1) as nat) {
            lemma_subtract_all_pieces(fs, u, reserved, k - 1);
        }
    } else {
        assert(pieces_of(seq![u], u, reserved, 0)) by {
            assert forall|i: int| 0 <= i < seq![u].len() implies u.0 <= #[trigger] seq![u][i].0 by {}
        }
    }
}

proof fn lemma_subtract_all_step(frags: Seq<(int, int)>, r: (int, int), k: int)
    requires
        0 <= k < frags.len(),
    ensures
        subtract_all(frags.take(k + 1), r) == subtract_all(frags.take(k), r) + subtract_spec(frags[k], r),
{
    assert(frags.take(k + 1).drop_last() =~= frags.take(k));
    assert(frags.take(k + 1).last() == frags[k]);
}

proof fn lemma_subtract_all_prefix_len(frags: Seq<(int, int)>, r: (int, int), k: int)
    requires
        0 <= k <= frags.len(),
    ensures
        subtract_all(frags.take(k), r).len() <= subtract_all(frags, r).len(),
    decreases frags.len() - k,
{
    if k < frags.len() {
        lemma_subtract_all_step(frags, r, k);
        lemma_subtract_all_prefix_len(frags, r, k + 1);
    } else {
        assert(frags.take(k) =~= frags);
    }
}

proof fn lemma_push_fragments_stop(acc: Seq<(int, int)>, frags: Seq<(int, int)>, k: nat, n: nat)
    requires
        k <= n,
        push_fragments(acc, frags, k).1 is Some,
    ensures
        push_fragments(acc, frags, n) == push_fragments(acc, frags, k),
    decreases n - k,
{
    if k < n {
        lemma_push_fragments_stop(acc, frags, k, (n - 1) as nat);
    }
}

proof fn lemma_normalize_regions_stop(boot: Seq<MemoryRegion>, reserved: Seq<(int, int)>, k: nat, n: nat)
    requires
        k <= n,
        normalize_regions(boot, reserved, k).1 is Some,
    ensures
        normalize_regions(boot, reserved, n) == normalize_regions(boot, reserved, k),
    decreases n - k,
{
    if k < n {
        lemma_normalize_regions_stop(boot, reserved, k, (n - 1) as nat);
    }
}

impl FrameAllocatorState {
    /// The next allocation hands out a whole frame of an allocatable region
    /// that overlaps no reserved span.
    pub proof fn lemma_allocation_is_owned(self)
        requires
            self.wf(),
        ensures
            self.allocation() matches Some(f) ==> {
                &&& self.in_region(f)
                &&& !self.reserved_overlap(f)
                &&& f % 4096 == 0
                &&& 0 <= f <= LAST_FRAME_START
            },
    {
        if self.freed.len() > 0 {
            let k = self.freed.len() - 1;
            assert(self.freed[k] == self.freed.last());
            let f = self.freed[k];
            let i = choose|i: int| 0 <= i < self.regions.len() && #[trigger] self.regions[i].0 <= f < self.regions[i].1;
            assert(self.regions[i].0 <= f);
        } else if let Some(f) = self.allocation() {
            let c = self.current_region;
            let reg = self.regions[c];
            assert(f + 4096 <= reg.1);
            assert(self.in_region(f));
            if self.reserved_overlap(f) {
                let j = choose|j: int|
                    0 <= j < self.reserved.len() && f < #[trigger] self.reserved[j].1 && f + FRAME_SIZE
                        > self.reserved[j].0;
                assert(clear_of(reg, self.reserved[j]));
            }
        }
    }

    /// Allocation keeps the allocator well formed.
    pub proof fn lemma_allocation_keeps_wf(self)
        requires
            self.wf(),
        ensures
            self.after_allocation().wf(),
    {
        let n = self.after_allocation();
        if self.freed.len() > 0 {
            assert forall|k: int| 0 <= k < n.freed.len() implies {
                &&& #[trigger] n.freed[k] % 4096 == 0
                &&& n.in_region(n.freed[k])
                &&& n.handed_out(n.freed[k])
                &&& !n.reserved_overlap(n.freed[k])
            } by {
                assert(n.freed[k] == self.freed[k]);
                assert(n.regions == self.regions);
                assert(n.reserved == self.reserved);
                assert(self.in_region(self.freed[k]));
                assert(self.handed_out(self.freed[k]));
            }
            assert(n.freed.no_duplicates()) by {
                assert forall|a: int, b: int| 0 <= a < b < n.freed.len() implies n.freed[a] != n.freed[b] by {
                    assert(n.freed[a] == self.freed[a]);
                    assert(n.freed[b] == self.freed[b]);
                }
            }
        }
    }
}

/// Subtracts one reserved half-open range from one usable half-open range.
///
/// The result may contain no remaining usable range if the reserved span fully
/// covers the input, one remaining range for no overlap or edge overlap, or two
/// remaining ranges if the reserved span splits the input.
fn subtract_range(usable: PhysicalRange, reserved: PhysicalRange) -> (r: [Option<PhysicalRange>; 2])
    ensures
        present_ranges(r@) == subtract_spec(range_view(usable), range_view(reserved)),
        r@[1] is Some ==> r@[0] is Some,
        reserved.end_exclusive@ <= usable.start@ || reserved.start@ >= usable.end_exclusive@ ==> (
        r@[0] == Some(usable) && r@[1] is None),
{
    let usable_start = usable.start.as_u64();
    let usable_end = usable.end_exclusive.as_u64();
    let reserved_start = reserved.start.as_u64();
    let reserved_end = reserved.end_exclusive.as_u64();

    if reserved_end <= usable_start || reserved_start >= usable_end {
        let r = [Some(usable), None];
        assert(present_ranges(r@) =~= seq![range_view(usable)]);
        return r;
    }
    let overlap_start = if reserved_start > usable_start {
        reserved_start
    } else {
        usable_start
    };
    let overlap_end = if reserved_end < usable_end {
        reserved_end
    } else {
        usable_end
    };

    if overlap_start <= usable_start && overlap_end >= usable_end {
        let r = [None, None];
        assert(present_ranges(r@) =~= Seq::<(int, int)>::empty());
        return r;
    }
    if overlap_start <= usable_start {
        let piece = physical_range(PhysicalAddress::new(overlap_end), usable.end_exclusive);
        let r = [Some(piece), None];
        assert(present_ranges(r@) =~= seq![range_view(piece)]);
        return r;
    }
    if overlap_end >= usable_end {
        let piece = physical_range(usable.start, PhysicalAddress::new(overlap_start));
        let r = [Some(piece), None];
        assert(present_ranges(r@) =~= seq![range_view(piece)]);
        return r;
    }
    let low = physical_range(usable.start, PhysicalAddress::new(overlap_start));
    let high = physical_range(PhysicalAddress::new(overlap_end), usable.end_exclusive);
    let r = [Some(low), Some(high)];
    assert(present_ranges(r@) =~= seq![range_view(low), range_view(high)]);
    r
}

/// The ranges in the first `n` slots of `a`.
pub open spec fn prefix_ranges(a: Seq<PhysicalRange>, n: int) -> Seq<(int, int)> {
    ranges_view(a.subrange(0, n))
}

/// Filling slot `n` of `a` extends its first `n` ranges by one.
proof fn lemma_prefix_ranges_push(a: Seq<PhysicalRange>, n: int, x: PhysicalRange)
    requires
        0 <= n < a.len(),
    ensures
        prefix_ranges(a.update(n, x), n + 1) == prefix_ranges(a, n).push(range_view(x)),
{
    assert(a.update(n, x).subrange(0, n + 1) =~= a.subrange(0, n).push(x));
    assert(ranges_view(a.subrange(0, n).push(x)) =~= ranges_view(a.subrange(0, n)).push(range_view(x)));
}

/// Splits `usable` around every reserved span in turn: the pieces left are in
/// the first slots of the returned array, their number beside it; `None` once
/// more than `MAX_REGION_FRAGMENTS` pieces would arise.
fn split_around_reserved(
    usable: PhysicalRange,
    reserved: &[PhysicalRange; RESERVED_RANGE_COUNT],
) -> (r: Option<([PhysicalRange; MAX_REGION_FRAGMENTS], usize)>)
    ensures
        match fragments_after(range_view(usable), ranges_view(reserved@), RESERVED_RANGE_COUNT as nat) {
            None => r is None,
            Some(fs) => r matches Some((a, n)) && n <= MAX_REGION_FRAGMENTS && prefix_ranges(a@, n as int) == fs,
        },
{
    let ghost u = range_view(usable);
    let ghost rv = ranges_view(reserved@);
    let mut fragments = [usable; MAX_REGION_FRAGMENTS];
    let mut count: usize = 1;
    assert(prefix_ranges(fragments@, 1) =~= seq![u]);
    let mut j: usize = 0;
    while j < RESERVED_RANGE_COUNT
        invariant
            j <= RESERVED_RANGE_COUNT,
            rv == ranges_view(reserved@),
            rv.len() == RESERVED_RANGE_COUNT,
            u == range_view(usable),
            count <= MAX_REGION_FRAGMENTS,
            fragments_after(u, rv, j as nat) == Some(prefix_ranges(fragments@, count as int)),
        decreases RESERVED_RANGE_COUNT - j,
    {
        let reserved_range = reserved[j];
        assert(rv[j as int] == range_view(reserved_range));
        let ghost fs = prefix_ranges(fragments@, count as int);
        let ghost r = rv[j as int];
        let mut next_fragments = [usable; MAX_REGION_FRAGMENTS];
        let mut next_count: usize = 0;
        assert(fs.take(0) =~= Seq::<(int, int)>::empty());
        assert(prefix_ranges(next_fragments@, 0) =~= Seq::<(int, int)>::empty());
        let mut k: usize = 0;
        while k < count
            invariant
                k <= count <= MAX_REGION_FRAGMENTS,
                j < RESERVED_RANGE_COUNT,
                rv == ranges_view(reserved@),
                rv.len() == RESERVED_RANGE_COUNT,
                u == range_view(usable),
                fs == prefix_ranges(fragments@, count as int),
                fs.len() == count,
                r == rv[j as int],
                r == range_view(reserved_range),
                fragments_after(u, rv, j as nat) == Some(fs),
                prefix_ranges(next_fragments@, next_count as int) == subtract_all(fs.take(k as int), r),
                next_count <= MAX_REGION_FRAGMENTS,
            decreases count - k,
        {
            let pieces = subtract_range(fragments[k], reserved_range);
            assert(fs[k as int] == range_view(fragments@[k as int]));
            proof {
                lemma_subtract_all_step(fs, r, k as int);
                lemma_subtract_all_prefix_len(fs, r, k as int + 1);
            }
            let ghost before = prefix_ranges(next_fragments@, next_count as int);
            let ghost total = subtract_all(fs, r);
            assert(before + present_ranges(pieces@) == subtract_all(fs.take(k as int + 1), r));
            if let Some(piece) = pieces[0] {
                if next_count >= MAX_REGION_FRAGMENTS {
                    assert(total.len() > MAX_REGION_FRAGMENTS);
                    assert(fragments_after(u, rv, (j + 1) as nat) is None);
                    assert(fragments_after(u, rv, RESERVED_RANGE_COUNT as nat) is None);
                    return None;
                }
                proof {
                    lemma_prefix_ranges_push(next_fragments@, next_count as int, piece);
                }
                next_fragments[next_count] = piece;
                next_count += 1;
            }
            if let Some(piece) = pieces[1] {
                if next_count >= MAX_REGION_FRAGMENTS {
                    assert(total.len() > MAX_REGION_FRAGMENTS);
                    assert(fragments_after(u, rv, (j + 1) as nat) is None);
                    assert(fragments_after(u, rv, RESERVED_RANGE_COUNT as nat) is None);
                    return None;
                }
                proof {
                    lemma_prefix_ranges_push(next_fragments@, next_count as int, piece);
                }
                next_fragments[next_count] = piece;
                next_count += 1;
            }
            assert(prefix_ranges(next_fragments@, next_count as int) =~= before + present_ranges(pieces@));
            k += 1;
        }
        assert(fs.take(fs.len() as int) =~= fs);
        fragments = next_fragments;
        count = next_count;
        j += 1;
    }
    Some((fragments, count))
}

impl FrameAllocatorState {
    /// A frame the allocator may still hand out: one waiting in the reuse stack,
    /// or one of a region that the cursor has not reached yet.
    pub open spec fn available(self, f: int) -> bool {
        self.freed.contains(f) || (self.in_region(f) && !self.handed_out(f))
    }

    /// No two allocatable regions share a byte.
    pub open spec fn regions_disjoint(self) -> bool {
        forall|a: int, b: int|
            0 <= a < self.regions.len() && 0 <= b < self.regions.len() && a != b ==> clear_of(
                #[trigger] self.regions[a],
                #[trigger] self.regions[b],
            )
    }

    /// A frame that was just freed is the next one handed out, and handing it
    /// out returns the allocator to the state it had before the free.
    pub proof fn lemma_free_then_allocate(self, f: int)
        requires
            self.wf(),
            self.free_result(f) is Ok,
        ensures
            self.after_free(f).allocation() == Some(f),
            self.after_free(f).after_allocation() == self,
    {
        let n = self.after_free(f);
        assert(n.freed.drop_last() =~= self.freed);
    }

    /// A frame cannot be freed twice in a row.
    pub proof fn lemma_double_free_rejected(self, f: int)
        requires
            self.wf(),
            self.free_result(f) is Ok,
        ensures
            self.after_free(f).free_result(f) == Err::<(), FreeError>(FreeError::FrameAlreadyFreed),
    {
        let n = self.after_free(f);
        assert(n.regions == self.regions);
        assert(n.reserved == self.reserved);
        assert(n.current_region == self.current_region);
        assert(n.next_frame == self.next_frame);
        assert(!n.reserved_overlap(f));
        assert(n.in_region(f));
        assert(n.handed_out(f));
        assert(n.freed[n.freed.len() - 1] == f);
    }

    /// A frame just handed out can always be given back right away.
    pub proof fn lemma_allocated_frame_can_be_freed(self)
        requires
            self.wf(),
            self.allocation() is Some,
        ensures
            self.after_allocation().free_result(self.allocation()->0) is Ok,
    {
        self.lemma_allocation_is_owned();
        let f = self.allocation()->0;
        let n = self.after_allocation();
        if self.freed.len() > 0 {
            let k = self.freed.len() - 1;
            assert(self.freed[k] == f);
            assert(n.regions == self.regions);
            assert(self.handed_out(f));
            if n.freed.contains(f) {
                let m = choose|m: int| 0 <= m < n.freed.len() && n.freed[m] == f;
                assert(n.freed[m] == self.freed[m]);
            }
        } else {
            let c = self.current_region;
            assert(self.regions[c].0 <= f < self.regions[c].1);
            assert(n.regions == self.regions);
            if n.current_region >= n.regions.len() || n.next_frame is None {
                assert(n.in_region(f));
            } else if n.current_region == c {
                assert(n.regions[c].0 <= f < n.next_frame->0);
            } else {
                assert(0 <= c < n.current_region && n.regions[c].0 <= f < n.regions[c].1);
            }
        }
    }

    /// Once the allocator has nothing left to hand out, it stays so until a
    /// frame is freed.
    pub proof fn lemma_exhaustion_persists(self)
        requires
            self.allocation() is None,
        ensures
            self.after_allocation().allocation() is None,
    {
    }

    /// Every frame handed out lies inside a usable region of the boot memory
    /// map the allocator was built from, and overlaps no reserved span.
    pub proof fn lemma_allocation_within_usable_memory(self, boot: Seq<MemoryRegion>)
        requires
            self.wf(),
            self.regions_within(boot),
            self.allocation() is Some,
        ensures
            ({
                let f = self.allocation()->0;
                &&& !self.reserved_overlap(f)
                &&& exists|b: int|
                    0 <= b < boot.len() && #[trigger] inside_usable((f, f + FRAME_SIZE), boot[b])
            }),
    {
        self.lemma_allocation_is_owned();
        let f = self.allocation()->0;
        let i = choose|i: int| 0 <= i < self.regions.len() && #[trigger] self.regions[i].0 <= f < self.regions[i].1;
        let reg = self.regions[i];
        assert(f + 4096 <= reg.1);
        let b = choose|b: int| 0 <= b < boot.len() && inside_usable(#[trigger] self.regions[i], boot[b]);
        assert(inside_usable((f, f + FRAME_SIZE), boot[b]));
    }

    /// The regions appear in ascending address order.
    pub open spec fn regions_ascending(self) -> bool {
        forall|a: int, b: int|
            0 <= a < b < self.regions.len() ==> #[trigger] self.regions[a].1 <= #[trigger] self.regions[b].0
    }

    /// With no freed frame waiting and the regions in ascending order, the
    /// cursor hands out frames in strictly increasing address order.
    pub proof fn lemma_cursor_allocations_increase(self)
        requires
            self.wf(),
            self.freed.len() == 0,
            self.regions_ascending(),
            self.allocation() is Some,
            self.after_allocation().allocation() is Some,
        ensures
            self.after_allocation().allocation()->0 > self.allocation()->0,
    {
        let c = self.current_region;
        if c + 1 < self.regions.len() {
            assert(self.regions[c].1 <= self.regions[c + 1].0);
        }
    }

    /// While the regions are pairwise disjoint, the allocator only hands out a
    /// frame that is available, and that frame is no longer available
    /// afterwards: no frame is handed out twice without being freed in between.
    pub proof fn lemma_no_double_allocation(self)
        requires
            self.wf(),
            self.regions_disjoint(),
            self.allocation() is Some,
        ensures
            self.available(self.allocation()->0),
            !self.after_allocation().available(self.allocation()->0),
    {
        self.lemma_allocation_is_owned();
        self.lemma_allocated_frame_can_be_freed();
        let f = self.allocation()->0;
        let n = self.after_allocation();
        if self.freed.len() > 0 {
            let k = self.freed.len() - 1;
            assert(self.freed[k] == f);
        } else {
            let c = self.current_region;
            assert(self.regions[c].0 <= f < self.regions[c].1);
            if self.handed_out(f) {
                if exists|i: int| 0 <= i < c && #[trigger] self.regions[i].0 <= f < self.regions[i].1 {
                    let i = choose|i: int| 0 <= i < c && #[trigger] self.regions[i].0 <= f < self.regions[i].1;
                    assert(clear_of(self.regions[i], self.regions[c]));
                }
            }
        }
    }
}

/// The frames of `[s, e)`, in increasing order.
pub open spec fn frames_between(s: int, e: int) -> Seq<int> {
    Seq::new(
        if e > s {
            ((e - s) / 4096) as nat
        } else {
            0
        },
        |i: int| s + 4096 * i,
    )
}

/// The frames of the regions from index `k` on, region by region.
pub open spec fn frames_from(regions: Seq<(int, int)>, k: int) -> Seq<int>
    decreases regions.len() - k,
{
    if k < 0 || k >= regions.len() {
        seq![]
    } else {
        frames_between(regions[k].0, regions[k].1) + frames_from(regions, k + 1)
    }
}

/// The state after `n` allocations in a row.
pub open spec fn allocate_times(s: FrameAllocatorState, n: nat) -> FrameAllocatorState
    decreases n,
{
    if n == 0 {
        s
    } else {
        allocate_times(s.after_allocation(), (n - 1) as nat)
    }
}

impl FrameAllocatorState {
    /// The frames the cursor has still to hand out, in the order it hands them out.
    pub open spec fn pending(self) -> Seq<int> {
        match self.next_frame {
            None => seq![],
            Some(f) => if 0 <= self.current_region < self.regions.len() {
                frames_between(f, self.regions[self.current_region].1) + frames_from(
                    self.regions,
                    self.current_region + 1,
                )
            } else {
                seq![]
            },
        }
    }

    /// With no freed frame waiting, an allocation hands out the first pending
    /// frame and leaves the rest pending, and nothing once none is pending.
    pub proof fn lemma_allocation_takes_first_pending(self)
        requires
            self.wf(),
            self.freed.len() == 0,
        ensures
            self.allocation() == (if self.pending().len() > 0 {
                Some(self.pending()[0])
            } else {
                None
            }),
            self.after_allocation().wf(),
            self.after_allocation().freed.len() == 0,
            self.after_allocation().pending() == (if self.pending().len() > 0 {
                self.pending().drop_first()
            } else {
                seq![]
            }),
    {
        self.lemma_allocation_keeps_wf();
        let n = self.after_allocation();
        if let Some(f) = self.next_frame {
            let c = self.current_region;
            let e = self.regions[c].1;
            let rest = frames_from(self.regions, c + 1);
            let here = frames_between(f, e);
            assert(f + 4096 <= e);
            assert(here.len() >= 1);
            assert(here[0] == f);
            assert(self.pending() == here + rest);
            assert(self.pending()[0] == f);
            if f + 4096 < e {
                let next_here = frames_between(f + 4096, e);
                assert(next_here.len() == here.len() - 1);
                assert(next_here =~= here.drop_first());
                assert(n.pending() == next_here + rest);
                assert(self.pending().drop_first() =~= next_here + rest);
            } else {
                assert(here.len() == 1);
                assert(self.pending().drop_first() =~= rest);
                if c + 1 < self.regions.len() {
                    assert(n.pending() == frames_from(self.regions, c + 1));
                } else {
                    assert(rest =~= Seq::<int>::empty());
                }
            }
        }
    }

    /// With no freed frame waiting, successive allocations hand out the pending
    /// frames in order, and nothing once they are used up.
    pub proof fn lemma_successive_allocations(self, n: nat)
        requires
            self.wf(),
            self.freed.len() == 0,
        ensures
            allocate_times(self, n).wf(),
            allocate_times(self, n).freed.len() == 0,
            allocate_times(self, n).allocation() == (if n < self.pending().len() {
                Some(self.pending()[n as int])
            } else {
                None
            }),
        decreases n,
    {
        self.lemma_allocation_takes_first_pending();
        if n > 0 {
            let a = self.after_allocation();
            a.lemma_successive_allocations((n - 1) as nat);
            if self.pending().len() > 0 {
                assert(a.pending() == self.pending().drop_first());
                if n < self.pending().len() {
                    assert(a.pending()[n - 1] == self.pending()[n as int]);
                }
            }
        }
    }
}

/// Right after a successful initialization the pending frames are every frame
/// of the normalized regions, region by region, so successive allocations
/// list exactly those frames and then nothing.
pub proof fn lemma_initialized_pending(boot: Seq<MemoryRegion>, reserved: Seq<(int, int)>)
    requires
        normalize_regions(boot, reserved, boot.len()).1 is None,
    ensures
        initialized_state(boot, reserved).pending() == frames_from(
            initialized_state(boot, reserved).regions,
            0,
        ),
{
    let st = initialized_state(boot, reserved);
    if st.regions.len() == 0 {
        assert(frames_from(st.regions, 0) =~= Seq::<int>::empty());
    }
}

impl FrameAllocatorState {
    /// The frame `f` may be given back: it lies in a region, the cursor has
    /// moved past it, it is not waiting in the reuse stack, and the stack has room.
    pub open spec fn returnable(self, f: int) -> bool {
        &&& self.in_region(f)
        &&& self.handed_out(f)
        &&& !self.freed.contains(f)
        &&& self.freed.len() < MAX_ALLOCATABLE_FRAME_REGIONS
    }

    /// A further allocation keeps a returnable frame returnable.
    proof fn lemma_allocation_keeps_returnable(self, f: int)
        requires
            self.wf(),
            self.returnable(f),
        ensures
            self.after_allocation().returnable(f),
            self.after_allocation().wf(),
            self.after_allocation().regions == self.regions,
            self.after_allocation().reserved == self.reserved,
    {
        self.lemma_allocation_keeps_wf();
        let n = self.after_allocation();
        if self.freed.len() > 0 {
            if n.freed.contains(f) {
                let m = choose|m: int| 0 <= m < n.freed.len() && n.freed[m] == f;
                assert(self.freed[m] == f);
            }
        } else if self.next_frame is Some && self.current_region < self.regions.len() {
            let c = self.current_region;
            if n.current_region == c + 1 && self.handed_out(f) {
                if self.regions[c].0 <= f < self.next_frame->0 {
                    assert(self.regions[c].0 <= f < self.regions[c].1);
                    if n.next_frame is Some {
                        assert(0 <= c < n.current_region && n.regions[c].0 <= f < n.regions[c].1);
                    }
                } else {
                    let i = choose|i: int| 0 <= i < c && #[trigger] self.regions[i].0 <= f < self.regions[i].1;
                    if n.next_frame is Some {
                        assert(0 <= i < n.current_region && n.regions[i].0 <= f < n.regions[i].1);
                    }
                }
            }
        }
    }

    /// Every frame an allocation hands out stays free-able through any number of
    /// further allocations: whether it came from the reuse stack or from the
    /// cursor, however far the cursor moves on (into later regions too),
    /// freeing it succeeds until it is freed.
    pub proof fn lemma_allocated_frame_stays_freeable(self, n: nat)
        requires
            self.wf(),
            self.allocation() is Some,
        ensures
            allocate_times(self.after_allocation(), n).free_result(self.allocation()->0) is Ok,
    {
        self.lemma_allocation_is_owned();
        self.lemma_allocated_frame_can_be_freed();
        self.lemma_allocation_keeps_wf();
        let f = self.allocation()->0;
        let a = self.after_allocation();
        assert(a.returnable(f));
        lemma_allocations_keep_returnable(a, f, n);
    }
}

proof fn lemma_allocations_keep_returnable(s: FrameAllocatorState, f: int, n: nat)
    requires
        s.wf(),
        s.returnable(f),
    ensures
        allocate_times(s, n).returnable(f),
        allocate_times(s, n).wf(),
        allocate_times(s, n).regions == s.regions,
        allocate_times(s, n).reserved == s.reserved,
    decreases n,
{
    if n > 0 {
        s.lemma_allocation_keeps_returnable(f);
        lemma_allocations_keep_returnable(s.after_allocation(), f, (n - 1) as nat);
    }
}

/// The whole frame `[f, f + 4096)` lies inside one of the ranges of `regs`.
pub open spec fn covers_frame(regs: Seq<(int, int)>, f: int) -> bool {
    exists|i: int| 0 <= i < regs.len() && #[trigger] regs[i].0 <= f && f + FRAME_SIZE <= regs[i].1
}

/// `res` starts with the ranges of `acc`.
spec fn extends(res: Seq<(int, int)>, acc: Seq<(int, int)>) -> bool {
    &&& acc.len() <= res.len()
    &&& forall|i: int| 0 <= i < acc.len() ==> #[trigger] res[i] == acc[i]
}

/// Removing `r` from `u` keeps every part of `u` outside `r`: a stretch
/// `[a, b)` of `u` clear of `r` lies wholly inside one remaining piece, and
/// every remaining piece lies inside `u` and clear of `r`.
pub proof fn lemma_subtract_keeps_outside(u: (int, int), r: (int, int), a: int, b: int)
    requires
        u.0 <= a < b <= u.1,
        clear_of((a, b), r),
    ensures
        exists|k: int|
            0 <= k < subtract_spec(u, r).len() && #[trigger] subtract_spec(u, r)[k].0 <= a && b
                <= subtract_spec(u, r)[k].1,
        forall|k: int|
            0 <= k < subtract_spec(u, r).len() ==> u.0 <= #[trigger] subtract_spec(u, r)[k].0
                && subtract_spec(u, r)[k].1 <= u.1 && clear_of(subtract_spec(u, r)[k], r),
{
    let p = subtract_spec(u, r);
    if r.1 <= u.0 || r.0 >= u.1 {
        assert(p[0] == u);
        assert(subtract_spec(u, r)[0].0 <= a && b <= subtract_spec(u, r)[0].1);
    } else if b <= r.0 {
        assert(p[0] == (u.0, r.0));
        assert(subtract_spec(u, r)[0].0 <= a && b <= subtract_spec(u, r)[0].1);
    } else {
        let k = p.len() - 1;
        assert(p[k] == (r.1, u.1));
        assert(subtract_spec(u, r)[k].0 <= a && b <= subtract_spec(u, r)[k].1);
    }
}

proof fn lemma_subtract_all_keeps_outside(frags: Seq<(int, int)>, r: (int, int), k: int, a: int, b: int)
    requires
        0 <= k < frags.len(),
        frags[k].0 <= a < b <= frags[k].1,
        clear_of((a, b), r),
    ensures
        exists|m: int|
            0 <= m < subtract_all(frags, r).len() && #[trigger] subtract_all(frags, r)[m].0 <= a
                && b <= subtract_all(frags, r)[m].1,
    decreases frags.len(),
{
    let rest = frags.drop_last();
    let head = subtract_all(rest, r);
    let tail = subtract_spec(frags.last(), r);
    let all = subtract_all(frags, r);
    assert(all == head + tail);
    if k == frags.len() - 1 {
        lemma_subtract_keeps_outside(frags.last(), r, a, b);
        let t = choose|t: int| 0 <= t < tail.len() && #[trigger] tail[t].0 <= a && b <= tail[t].1;
        assert(all[head.len() + t] == tail[t]);
    } else {
        assert(rest[k] == frags[k]);
        lemma_subtract_all_keeps_outside(rest, r, k, a, b);
        let m = choose|m: int| 0 <= m < head.len() && #[trigger] head[m].0 <= a && b <= head[m].1;
        assert(all[m] == head[m]);
    }
}

proof fn lemma_fragments_keep_outside(u: (int, int), reserved: Seq<(int, int)>, k: nat, a: int, b: int)
    requires
        k <= reserved.len(),
        u.0 <= a < b <= u.1,
        forall|j: int| 0 <= j < k ==> clear_of((a, b), #[trigger] reserved[j]),
        fragments_after(u, reserved, k) is Some,
    ensures
        ({
            let fs = fragments_after(u, reserved, k)->0;
            exists|m: int| 0 <= m < fs.len() && #[trigger] fs[m].0 <= a && b <= fs[m].1
        }),
    decreases k,
{
    if k == 0 {
        let fs = fragments_after(u, reserved, k)->0;
        assert(fs == seq![u]);
        assert(fs[0].0 <= a && b <= fs[0].1);
    } else {
        lemma_fragments_keep_outside(u, reserved, (k - 1) as nat, a, b);
        let fs = fragments_after(u, reserved, (k - 1) as nat)->0;
        let m = choose|m: int| 0 <= m < fs.len() && #[trigger] fs[m].0 <= a && b <= fs[m].1;
        assert(clear_of((a, b), reserved[k - 1]));
        lemma_subtract_all_keeps_outside(fs, reserved[k - 1], m, a, b);
        let all = subtract_all(fs, reserved[k - 1]);
        assert(fragments_after(u, reserved, k)->0 == all);
        let w = choose|w: int| 0 <= w < all.len() && #[trigger] all[w].0 <= a && b <= all[w].1;
        assert(fragments_after(u, reserved, k)->0[w].0 <= a);
    }
}

proof fn lemma_align_bounds(x: int, f: int)
    requires
        f % 4096 == 0,
    ensures
        x <= f ==> align_up_value(x) <= f,
        f + 4096 <= x ==> f + 4096 <= align_down_value(x),
{
    assert(x <= f ==> align_up_value(x) <= f) by (nonlinear_arith)
        requires
            f % 4096 == 0,
    {
    }
    assert(f + 4096 <= x ==> f + 4096 <= align_down_value(x)) by (nonlinear_arith)
        requires
            f % 4096 == 0,
    {
    }
}

proof fn lemma_push_fragments_keep(acc: Seq<(int, int)>, frags: Seq<(int, int)>, n: nat, k: int, f: int)
    requires
        n <= frags.len(),
        push_fragments(acc, frags, n).1 is None,
        f % 4096 == 0,
        0 <= k < n ==> frags[k].0 <= f && f + FRAME_SIZE <= frags[k].1,
    ensures
        extends(push_fragments(acc, frags, n).0, acc),
        0 <= k < n ==> covers_frame(push_fragments(acc, frags, n).0, f),
        covers_frame(acc, f) ==> covers_frame(push_fragments(acc, frags, n).0, f),
    decreases n,
{
    if n > 0 {
        let (a, e) = push_fragments(acc, frags, (n - 1) as nat);
        assert(e is None);
        lemma_push_fragments_keep(acc, frags, (n - 1) as nat, k, f);
        let frag = frags[n - 1];
        let res = push_fragment(a, frag).0;
        assert(extends(res, a));
        if covers_frame(a, f) {
            let i = choose|i: int| 0 <= i < a.len() && #[trigger] a[i].0 <= f && f + FRAME_SIZE <= a[i].1;
            assert(res[i] == a[i]);
        }
        assert(push_fragments(acc, frags, n).0 == res);
        if k == n - 1 {
            lemma_align_bounds(frag.0, f);
            lemma_align_bounds(frag.1, f);
            assert(frag.0 <= LAST_FRAME_START);
            assert(align_up_value(frag.0) < align_down_value(frag.1));
            assert(a.len() < MAX_ALLOCATABLE_FRAME_REGIONS);
            assert(res == a.push((align_up_value(frag.0), align_down_value(frag.1))));
            let last = res.len() - 1;
            assert(res[last] == (align_up_value(frag.0), align_down_value(frag.1)));
            assert(res[last].0 <= f && f + FRAME_SIZE <= res[last].1);
        }
        assert forall|i: int| 0 <= i < acc.len() implies #[trigger] res[i] == acc[i] by {
            assert(a[i] == acc[i]);
        }
    }
}

proof fn lemma_normalize_regions_keep(boot: Seq<MemoryRegion>, reserved: Seq<(int, int)>, n: nat, b: int, f: int)
    requires
        n <= boot.len(),
        normalize_regions(boot, reserved, n).1 is None,
        f % 4096 == 0,
        0 <= b < n ==> {
            &&& boot[b].kind == MemoryRegionKind::Usable
            &&& boot[b].base <= f
            &&& f + FRAME_SIZE <= boot[b].base + boot[b].length
            &&& forall|j: int| 0 <= j < reserved.len() ==> clear_of((f, f + FRAME_SIZE), #[trigger] reserved[j])
        },
    ensures
        0 <= b < n ==> covers_frame(normalize_regions(boot, reserved, n).0, f),
    decreases n,
{
    if n > 0 {
        let (a, e) = normalize_regions(boot, reserved, (n - 1) as nat);
        assert(e is None);
        lemma_normalize_regions_keep(boot, reserved, (n - 1) as nat, b, f);
        let region = boot[n - 1];
        if region.kind == MemoryRegionKind::Usable {
            let u = (region.base as int, region.base + region.length);
            let fs = fragments_after(u, reserved, reserved.len())->0;
            if b == n - 1 {
                lemma_fragments_keep_outside(u, reserved, reserved.len(), f, f + FRAME_SIZE);
                let m = choose|m: int| 0 <= m < fs.len() && #[trigger] fs[m].0 <= f && f + FRAME_SIZE <= fs[m].1;
                lemma_push_fragments_keep(a, fs, fs.len(), m, f);
            } else {
                lemma_push_fragments_keep(a, fs, fs.len(), -1, f);
            }
        }
    }
}

/// When initialization succeeds, it loses no memory: every whole frame of a
/// usable boot region that overlaps no reserved span lies inside one of the
/// allocator's regions, so the allocator manages it.
pub proof fn lemma_initialization_keeps_every_free_frame(
    boot: Seq<MemoryRegion>,
    reserved: Seq<(int, int)>,
    b: int,
    f: int,
)
    requires
        initialization_result(boot, reserved) is Ok,
        0 <= b < boot.len(),
        boot[b].kind == MemoryRegionKind::Usable,
        f % 4096 == 0,
        boot[b].base <= f,
        f + FRAME_SIZE <= boot[b].base + boot[b].length,
        forall|j: int| 0 <= j < reserved.len() ==> clear_of((f, f + FRAME_SIZE), #[trigger] reserved[j]),
    ensures
        covers_frame(initialized_state(boot, reserved).regions, f),
        initialized_state(boot, reserved).in_region(f),
{
    lemma_normalize_regions_keep(boot, reserved, boot.len(), b, f);
    let regs = initialized_state(boot, reserved).regions;
    let i = choose|i: int| 0 <= i < regs.len() && #[trigger] regs[i].0 <= f && f + FRAME_SIZE <= regs[i].1;
    assert(regs[i].0 <= f < regs[i].1);
}

/// Initializing an allocator from a boot memory map forgets everything it held
/// before: two allocators with the same reserved spans, whatever regions,
/// cursor and freed frames they held, end in the same state with the same
/// result (the ones a fresh allocator built from that map with those spans
/// gets), with no freed frame waiting and the cursor on the first region; so
/// every later run of allocations gives the same frames on both.
pub proof fn lemma_reinitialization_is_fresh(
    s: FrameAllocatorState,
    t: FrameAllocatorState,
    boot: Seq<MemoryRegion>,
)
    requires
        s.reserved == t.reserved,
    ensures
        initialized_state(boot, s.reserved) == initialized_state(boot, t.reserved),
        initialization_result(boot, s.reserved) == initialization_result(boot, t.reserved),
        initialized_state(boot, s.reserved).freed.len() == 0,
        initialized_state(boot, s.reserved).current_region == 0,
        forall|n: nat|
            #[trigger] allocate_times(initialized_state(boot, s.reserved), n) == allocate_times(
                initialized_state(boot, t.reserved),
                n,
            ),
{
}

impl MonotonicFrameAllocator {
    /// Creates an empty allocator with no usable frame regions loaded yet.
    ///
    /// `reserved` holds the kernel-owned physical spans (the low bootstrap span
    /// and the higher-half kernel image span) that no frame may ever overlap;
    /// the allocator checks them in every state, even before it is initialized.
    pub fn empty(reserved: [PhysicalRange; RESERVED_RANGE_COUNT]) -> (r: Self)
        ensures
            r@.regions == Seq::<(int, int)>::empty(),
            r@.current_region == 0,
            r@.next_frame is None,
            r@.freed == Seq::<int>::empty(),
            r@.reserved == ranges_view(reserved@),
            r@.wf(),
    {
        let unused_frame = PhysicalFrame::from_start_address(PhysicalAddress::new(0)).unwrap();
        let unused_region = UsableFrameRegion { start: unused_frame, end_exclusive: unused_frame };
        let r = MonotonicFrameAllocator {
            regions: [unused_region; MAX_ALLOCATABLE_FRAME_REGIONS],
            region_count: 0,
            current_region: 0,
            next_frame: None,
            freed_frames: [unused_frame; MAX_ALLOCATABLE_FRAME_REGIONS],
            freed_count: 0,
            reserved,
        };
        assert(r@.regions =~= Seq::<(int, int)>::empty());
        assert(r@.freed =~= Seq::<int>::empty());
        r
    }

    /// Returns whether `frame` lies inside one of the allocator-owned usable ranges.
    fn is_allocatable_frame(&self, frame: PhysicalFrame) -> (r: bool)
        requires
            self@.wf(),
        ensures
            r == self@.in_region(frame@ as int),
    {
        let frame_addr = frame.start_address().as_u64();
        let mut i: usize = 0;
        while i < self.region_count
            invariant
                i <= self.region_count <= MAX_ALLOCATABLE_FRAME_REGIONS,
                self@.regions.len() == self.region_count,
                frame_addr == frame@,
                forall|k: int| 0 <= k < i ==> !(#[trigger] self@.regions[k].0 <= frame_addr < self@.regions[k].1),
            decreases self.region_count - i,
        {
            let region = self.regions[i];
            let region_start = region.start.start_address().as_u64();
            let region_end = region.end_exclusive.start_address().as_u64();
            assert(self@.regions[i as int] == region_view(region));
            if frame_addr >= region_start && frame_addr < region_end {
                assert(self@.regions[i as int].0 <= frame_addr < self@.regions[i as int].1);
                return true;
            }
            i += 1;
        }
        false
    }

    /// Returns whether `frame` overlaps one of the permanently reserved spans.
    fn is_reserved_frame(&self, frame: PhysicalFrame) -> (r: bool)
        ensures
            r == self@.reserved_overlap(frame@ as int),
    {
        let frame_start = frame.start_address().as_u64();
        let frame_end = match frame_start.checked_add(FRAME_SIZE) {
            Some(value) => value,
            None => return false,
        };
        let mut j: usize = 0;
        while j < RESERVED_RANGE_COUNT
            invariant
                j <= RESERVED_RANGE_COUNT,
                frame_start == frame@,
                frame_end == frame_start + FRAME_SIZE,
                self@.reserved == ranges_view(self.reserved@),
                forall|k: int|
                    0 <= k < j ==> !(frame_start < #[trigger] self@.reserved[k].1 && frame_end
                        > self@.reserved[k].0),
            decreases RESERVED_RANGE_COUNT - j,
        {
            let reserved = self.reserved[j];
            let reserved_start = reserved.start.as_u64();
            let reserved_end = reserved.end_exclusive.as_u64();
            assert(self@.reserved[j as int] == range_view(reserved));
            if frame_start < reserved_end && frame_end > reserved_start {
                assert(frame_start < self@.reserved[j as int].1 && frame_end > self@.reserved[j as int].0);
                return true;
            }
            j += 1;
        }
        false
    }

    /// Returns whether the monotonic cursor has already handed out `frame` once.
    fn was_monotonically_allocated(&self, frame: PhysicalFrame) -> (r: bool)
        requires
            self@.wf(),
        ensures
            r == self@.handed_out(frame@ as int),
    {
        if self.region_count == 0 {
            return false;
        }
        if self.current_region >= self.region_count || self.next_frame.is_none() {
            return self.is_allocatable_frame(frame);
        }
        let frame_addr = frame.start_address().as_u64();
        let mut i: usize = 0;
        while i < self.current_region
            invariant
                i <= self.current_region < self.region_count <= MAX_ALLOCATABLE_FRAME_REGIONS,
                self@.regions.len() == self.region_count,
                frame_addr == frame@,
                forall|k: int| 0 <= k < i ==> !(#[trigger] self@.regions[k].0 <= frame_addr < self@.regions[k].1),
            decreases self.current_region - i,
        {
            let region = self.regions[i];
            let region_start = region.start.start_address().as_u64();
            let region_end = region.end_exclusive.start_address().as_u64();
            assert(self@.regions[i as int] == region_view(region));
            if frame_addr >= region_start && frame_addr < region_end {
                assert(self@.regions[i as int].0 <= frame_addr < self@.regions[i as int].1);
                return true;
            }
            i += 1;
        }
        let current_region = self.regions[self.current_region];
        let current_region_start = current_region.start.start_address().as_u64();
        let next_frame_addr = self.next_frame.unwrap().start_address().as_u64();
        assert(self@.regions[self.current_region as int] == region_view(current_region));
        frame_addr >= current_region_start && frame_addr < next_frame_addr
    }

    /// Returns whether `frame` is already present in the freed-frame reuse stack.
    fn is_already_freed(&self, frame: PhysicalFrame) -> (r: bool)
        requires
            self@.wf(),
        ensures
            r == self@.freed.contains(frame@ as int),
    {
        let frame_addr = frame.start_address().as_u64();
        let mut k: usize = 0;
        while k < self.freed_count
            invariant
                k <= self.freed_count <= MAX_ALLOCATABLE_FRAME_REGIONS,
                self@.freed.len() == self.freed_count,
                frame_addr == frame@,
                forall|m: int| 0 <= m < k ==> #[trigger] self@.freed[m] != frame_addr,
            decreases self.freed_count - k,
        {
            let freed_frame = self.freed_frames[k];
            assert(self@.freed[k as int] == frame_view(freed_frame));
            if freed_frame.start_address().as_u64() == frame_addr {
                return true;
            }
            k += 1;
        }
        false
    }

    /// Returns the next allocatable 4 KiB frame.
    ///
    /// Freed frames are reused first in LIFO order. If no freed frame is
    /// available, allocation falls back to the monotonic usable-region cursor.
    pub fn allocate_frame(&mut self) -> (r: Option<PhysicalFrame>)
        requires
            old(self)@.wf(),
        ensures
            frame_start(r) == old(self)@.allocation(),
            final(self)@ == old(self)@.after_allocation(),
            final(self)@.wf(),
            r matches Some(f) ==> old(self)@.in_region(f@ as int) && !old(self)@.reserved_overlap(
                f@ as int,
            ),
    {
        proof {
            self@.lemma_allocation_is_owned();
            self@.lemma_allocation_keeps_wf();
        }
        let ghost old_view = self@;
        if self.freed_count != 0 {
            self.freed_count = self.freed_count - 1;
            let freed_frame = self.freed_frames[self.freed_count];
            assert(self@.freed =~= old_view.freed.drop_last());
            return Some(freed_frame);
        }
        if self.next_frame.is_none() {
            return None;
        }
        if self.current_region >= self.region_count {
            self.next_frame = None;
            return None;
        }
        let region = self.regions[self.current_region];
        assert(old_view.regions[self.current_region as int] == region_view(region));
        let allocated = self.next_frame.unwrap();
        let next = allocated.checked_next();
        match next {
            Some(candidate) => {
                if candidate.start_address().as_u64() < region.end_exclusive.start_address().as_u64() {
                    self.next_frame = Some(candidate);
                    Some(allocated)
                } else {
                    self.current_region += 1;
                    if self.current_region < self.region_count {
                        let following = self.regions[self.current_region];
                        assert(old_view.regions[self.current_region as int] == region_view(following));
                        self.next_frame = Some(following.start);
                    } else {
                        self.next_frame = None;
                    }
                    Some(allocated)
                }
            },
            None => {
                self.next_frame = None;
                Some(allocated)
            },
        }
    }

    /// Returns one runtime-owned frame to the allocator's LIFO reuse stack.
    ///
    /// This rejects permanently reserved frames, unmanaged frames, and frames
    /// that are already waiting in the reuse stack; a rejected frame leaves the
    /// allocator unchanged.
    pub fn free(&mut self, frame: PhysicalFrame) -> (r: Result<(), FreeError>)
        requires
            old(self)@.wf(),
        ensures
            r == old(self)@.free_result(frame@ as int),
            final(self)@ == old(self)@.after_free(frame@ as int),
            final(self)@.wf(),
    {
        let ghost old_view = self@;
        let ghost f = frame@ as int;
        if self.is_reserved_frame(frame) {
            return Err(FreeError::ReservedFrame);
        }
        if !self.is_allocatable_frame(frame) || !self.was_monotonically_allocated(frame) {
            return Err(FreeError::UnmanagedFrame);
        }
        if self.is_already_freed(frame) {
            return Err(FreeError::FrameAlreadyFreed);
        }
        if self.freed_count >= MAX_ALLOCATABLE_FRAME_REGIONS {
            return Err(FreeError::FreedFrameOverflow);
        }
        let start = frame.start_address();
        assert(start@ % 4096 == 0);
        let count = self.freed_count;
        self.freed_frames[count] = frame;
        self.freed_count = count + 1;
        assert(self@.freed =~= old_view.freed.push(f));
        proof {
            let n = self@;
            assert(n.freed.no_duplicates()) by {
                assert forall|a: int, b: int| 0 <= a < b < n.freed.len() implies n.freed[a] != n.freed[b] by {
                    if b < old_view.freed.len() {
                        assert(n.freed[a] == old_view.freed[a]);
                        assert(n.freed[b] == old_view.freed[b]);
                    } else {
                        assert(n.freed[a] == old_view.freed[a]);
                        assert(old_view.freed.contains(old_view.freed[a]));
                    }
                }
            }
            assert forall|k: int| 0 <= k < n.freed.len() implies {
                &&& #[trigger] n.freed[k] % 4096 == 0
                &&& n.in_region(n.freed[k])
                &&& n.handed_out(n.freed[k])
                &&& !n.reserved_overlap(n.freed[k])
            } by {
                assert(n.regions == old_view.regions);
                assert(n.reserved == old_view.reserved);
                assert(n.current_region == old_view.current_region);
                assert(n.next_frame == old_view.next_frame);
                if k < old_view.freed.len() {
                    assert(n.freed[k] == old_view.freed[k]);
                    assert(old_view.in_region(old_view.freed[k]));
                    assert(old_view.handed_out(old_view.freed[k]));
                } else {
                    assert(n.freed[k] == f);
                }
            }
        }
        Ok(())
    }

    /// Normalizes one remaining usable physical span and appends it if a full
    /// 4 KiB frame still fits after alignment.
    fn push_allocatable_range(&mut self, range: PhysicalRange) -> (r: Result<(), AllocatorInitError>)
        ensures
            ({
                let (regions, err) = push_fragment(old(self)@.regions, range_view(range));
                &&& final(self)@ == FrameAllocatorState { regions, ..old(self)@ }
                &&& r == match err {
                    Some(e) => Err::<(), AllocatorInitError>(e),
                    None => Ok(()),
                }
            }),
            old(self)@.wf() && (forall|j: int|
                0 <= j < old(self)@.reserved.len() ==> clear_of(
                    range_view(range),
                    #[trigger] old(self)@.reserved[j],
                )) ==> final(self)@.wf(),
    {
        let ghost old_view = self@;
        let aligned_start = match range.start.checked_align_up() {
            Some(a) => a,
            None => return Err(AllocatorInitError::RegionOverflow),
        };
        let aligned_end = range.end_exclusive.align_down();

        if aligned_start.as_u64() >= aligned_end.as_u64() {
            return Ok(());
        }
        let start = match PhysicalFrame::from_start_address(aligned_start) {
            Some(f) => f,
            None => return Err(AllocatorInitError::BadFrameRegion),
        };
        let end_exclusive = match PhysicalFrame::from_start_address(aligned_end) {
            Some(f) => f,
            None => return Err(AllocatorInitError::BadFrameRegion),
        };
        if self.region_count >= MAX_ALLOCATABLE_FRAME_REGIONS {
            return Err(AllocatorInitError::TooManyAllocatableRegions);
        }
        let region = UsableFrameRegion { start, end_exclusive };
        let count = self.region_count;
        self.regions[count] = region;
        self.region_count = count + 1;
        assert(self@.regions =~= old_view.regions.push(region_view(region)));
        proof {
            if old_view.wf() && (forall|j: int|
                0 <= j < old_view.reserved.len() ==> clear_of(range_view(range), #[trigger] old_view.reserved[j])) {
                let n = self@;
                assert forall|i: int| 0 <= i < n.regions.len() implies {
                    &&& 0 <= #[trigger] n.regions[i].0 < n.regions[i].1 <= u64::MAX
                    &&& n.regions[i].0 % 4096 == 0
                    &&& n.regions[i].1 % 4096 == 0
                    &&& forall|j: int|
                        0 <= j < n.reserved.len() ==> clear_of(n.regions[i], #[trigger] n.reserved[j])
                } by {
                    if i < old_view.regions.len() {
                        assert(n.regions[i] == old_view.regions[i]);
                    } else {
                        assert forall|j: int| 0 <= j < n.reserved.len() implies clear_of(
                            n.regions[i],
                            #[trigger] n.reserved[j],
                        ) by {
                            assert(clear_of(range_view(range), old_view.reserved[j]));
                        }
                    }
                }
                if let Some(f) = n.next_frame {
                    assert(n.regions[n.current_region] == old_view.regions[n.current_region]);
                }
                assert forall|k: int| 0 <= k < n.freed.len() implies {
                    &&& #[trigger] n.freed[k] % 4096 == 0
                    &&& n.in_region(n.freed[k])
                    &&& n.handed_out(n.freed[k])
                    &&& !n.reserved_overlap(n.freed[k])
                } by {
                    let x = n.freed[k];
                    assert(old_view.in_region(x));
                    let i = choose|i: int|
                        0 <= i < old_view.regions.len() && #[trigger] old_view.regions[i].0 <= x
                            < old_view.regions[i].1;
                    assert(n.regions[i] == old_view.regions[i]);
                    assert(old_view.handed_out(x));
                    if old_view.current_region >= old_view.regions.len() || old_view.next_frame is None {
                    } else {
                        assert(n.regions[n.current_region] == old_view.regions[n.current_region]);
                        if exists|i: int|
                            0 <= i < old_view.current_region && #[trigger] old_view.regions[i].0 <= x
                                < old_view.regions[i].1 {
                            let i2 = choose|i: int|
                                0 <= i < old_view.current_region && #[trigger] old_view.regions[i].0
                                    <= x < old_view.regions[i].1;
                            assert(n.regions[i2] == old_view.regions[i2]);
                        }
                    }
                }
            }
        }
        Ok(())
    }

    /// Builds allocator-owned usable frame ranges from the parsed boot memory map.
    ///
    /// Keeps only `Usable` regions, removes the allocator's kernel-owned reserved spans
    /// from them, normalizes the remaining pieces to 4 KiB frame boundaries,
    /// discards pieces left empty by alignment, resets the freed-frame reuse
    /// stack, and points the allocator cursor at the first allocatable frame if
    /// one exists.
    pub fn initialize_from_boot_info(
        &mut self,
        boot_info: &BootInfo,
    ) -> (r: Result<(), AllocatorInitError>)
        requires
            old(self)@.reserved.len() == RESERVED_RANGE_COUNT,
        ensures
            final(self)@ == initialized_state(boot_info@, old(self)@.reserved),
            r == initialization_result(boot_info@, old(self)@.reserved),
            final(self)@.wf(),
            final(self)@.regions_within(boot_info@),
    {
        self.region_count = 0;
        self.current_region = 0;
        self.next_frame = None;
        self.freed_count = 0;

        let ghost boot = boot_info@;
        let ghost rv = ranges_view(self.reserved@);
        assert(self@.regions =~= Seq::<(int, int)>::empty());
        assert(self@.freed =~= Seq::<int>::empty());
        let regions = boot_info.regions();
        let mut i: usize = 0;
        while i < regions.len()
            invariant
                regions@ == boot,
                boot == boot_info@,
                i <= boot.len(),
                rv.len() == RESERVED_RANGE_COUNT,
                self@.regions == normalize_regions(boot, rv, i as nat).0,
                normalize_regions(boot, rv, i as nat).1 is None,
                self.current_region == 0,
                self.next_frame is None,
                self@.freed == Seq::<int>::empty(),
                self@.reserved == rv,
                rv == old(self)@.reserved,
                self@.wf(),
                self@.regions_within(boot),
            decreases boot.len() - i,
        {
            let region = regions[i];
            let ghost acc0 = self@.regions;
            if region.kind == MemoryRegionKind::Usable {
                let raw_start = PhysicalAddress::new(region.base);
                let raw_end = match region.base.checked_add(region.length) {
                    Some(end) => PhysicalAddress::new(end),
                    None => {
                        assert(normalize_regions(boot, rv, (i + 1) as nat) == (
                            acc0,
                            Some(AllocatorInitError::RegionOverflow),
                        ));
                        proof {
                            lemma_normalize_regions_stop(boot, rv, (i + 1) as nat, boot.len());
                        }
                        return Err(AllocatorInitError::RegionOverflow);
                    },
                };
                let raw = physical_range(raw_start, raw_end);
                let ghost u = range_view(raw);
                let (fragments, fragment_count) = match split_around_reserved(raw, &self.reserved) {
                    Some(split) => split,
                    None => {
                        proof {
                            lemma_normalize_regions_stop(boot, rv, (i + 1) as nat, boot.len());
                        }
                        return Err(AllocatorInitError::TooManyAllocatableRegions);
                    },
                };
                let ghost fs = prefix_ranges(fragments@, fragment_count as int);
                proof {
                    lemma_fragments_after_pieces(u, rv, RESERVED_RANGE_COUNT as nat);
                }
                let mut k: usize = 0;
                while k < fragment_count
                    invariant
                        regions@ == boot,
                        boot == boot_info@,
                        i < boot.len(),
                        boot[i as int] == region,
                        region.kind == MemoryRegionKind::Usable,
                        u == (region.base as int, region.base + region.length),
                        k <= fragment_count <= MAX_REGION_FRAGMENTS,
                        fs == prefix_ranges(fragments@, fragment_count as int),
                        fs.len() == fragment_count,
                        pieces_of(fs, u, rv, RESERVED_RANGE_COUNT as int),
                        fragments_after(u, rv, RESERVED_RANGE_COUNT as nat) == Some(fs),
                        normalize_regions(boot, rv, i as nat) == (acc0, None::<AllocatorInitError>),
                        region.base + region.length <= u64::MAX,
                                rv.len() == RESERVED_RANGE_COUNT,
                        push_fragments(acc0, fs, k as nat) == (self@.regions, None::<AllocatorInitError>),
                        self.current_region == 0,
                        self.next_frame is None,
                        self@.freed == Seq::<int>::empty(),
                        self@.reserved == rv,
                        rv == old(self)@.reserved,
                        self@.wf(),
                        self@.regions_within(boot),
                    decreases fragment_count - k,
                {
                    let fragment = fragments[k];
                    assert(fs[k as int] == range_view(fragment));
                    let ghost before = self@.regions;
                    assert forall|j: int| 0 <= j < self@.reserved.len() implies clear_of(
                        range_view(fragment),
                        #[trigger] self@.reserved[j],
                    ) by {
                        assert(clear_of(fs[k as int], rv[j]));
                    }
                    match self.push_allocatable_range(fragment) {
                        Ok(()) => {},
                        Err(e) => {
                            assert(push_fragments(acc0, fs, (k + 1) as nat).1 is Some);
                            proof {
                                lemma_push_fragments_stop(acc0, fs, (k + 1) as nat, fs.len());
                            }
                            assert(normalize_regions(boot, rv, (i + 1) as nat) == push_fragments(
                                acc0,
                                fs,
                                fs.len(),
                            ));
                            proof {
                                lemma_normalize_regions_stop(boot, rv, (i + 1) as nat, boot.len());
                            }
                            return Err(e);
                        },
                    }
                    assert forall|m: int| 0 <= m < self@.regions.len() implies exists|b: int|
                        0 <= b < boot.len() && inside_usable(#[trigger] self@.regions[m], boot[b]) by {
                        if m < before.len() {
                            assert(self@.regions[m] == before[m]);
                        } else {
                            assert(inside_usable(self@.regions[m], boot[i as int]));
                        }
                    }
                    k += 1;
                }
                assert(normalize_regions(boot, rv, (i + 1) as nat) == push_fragments(
                    acc0,
                    fs,
                    fs.len(),
                ));
            }
            i += 1;
        }
        if self.region_count != 0 {
            self.next_frame = Some(self.regions[0].start);
        }
        Ok(())
    }

    /// Builds a fresh allocator from the parsed boot memory map and the
    /// kernel-owned `reserved` spans.
    pub fn new(boot_info: &BootInfo, reserved: [PhysicalRange; RESERVED_RANGE_COUNT]) -> (r: Result<
        Self,
        AllocatorInitError,
    >)
        ensures
            match initialization_result(boot_info@, ranges_view(reserved@)) {
                Ok(()) => r matches Ok(a) && a@ == initialized_state(boot_info@, ranges_view(reserved@))
                    && a@.wf() && a@.regions_within(boot_info@),
                Err(e) => r == Err::<Self, AllocatorInitError>(e),
            },
    {
        let mut allocator = Self::empty(reserved);
        match allocator.initialize_from_boot_info(boot_info) {
            Ok(()) => Ok(allocator),
            Err(e) => Err(e),
        }
    }
}

} // verus!
