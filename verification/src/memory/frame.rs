use core::cmp::Ordering;

use vstd::prelude::*;

verus! {

/// The fixed 4 KiB frame size currently used by Winnie OS physical memory code.
pub const FRAME_SIZE: u64 = 4096;

const FRAME_MASK: u64 = 4095;

/// The highest 4 KiB-aligned address representable in a `u64`.
pub const LAST_FRAME_START: u64 = 0xffff_ffff_ffff_f000;

/// The least multiple of the frame size that is not below `x`.
pub open spec fn align_up_value(x: int) -> int {
    if x % 4096 == 0 {
        x
    } else {
        x - x % 4096 + 4096
    }
}

/// The greatest multiple of the frame size that is not above `x`.
pub open spec fn align_down_value(x: int) -> int {
    x - x % 4096
}

/// A raw physical address value used by early frame-allocation and mapping code.
#[derive(Clone, Copy, Debug, PartialEq, Eq, Structural, Ord)]
pub struct PhysicalAddress(u64);

impl View for PhysicalAddress {
    type V = u64;

    closed spec fn view(&self) -> u64 {
        self.0
    }
}

/// Addresses order by their numeric value.
pub open spec fn order_of(a: u64, b: u64) -> Option<Ordering> {
    if a < b {
        Some(Ordering::Less)
    } else if a == b {
        Some(Ordering::Equal)
    } else {
        Some(Ordering::Greater)
    }
}

impl PartialOrd for PhysicalAddress {
    fn partial_cmp(&self, other: &Self) -> (r: Option<Ordering>) {
        if self.0 < other.0 {
            Some(Ordering::Less)
        } else if self.0 == other.0 {
            Some(Ordering::Equal)
        } else {
            Some(Ordering::Greater)
        }
    }
}

impl vstd::std_specs::cmp::PartialOrdSpecImpl for PhysicalAddress {
    open spec fn obeys_partial_cmp_spec() -> bool {
        true
    }

    open spec fn partial_cmp_spec(&self, other: &Self) -> Option<Ordering> {
        order_of(self@, other@)
    }
}

/// Two addresses with the same numeric value are the same address.
pub proof fn lemma_address_eq(a: PhysicalAddress, b: PhysicalAddress)
    requires
        a@ == b@,
    ensures
        a == b,
{
}

proof fn lemma_mask_is_mod(x: u64)
    ensures
        (x & 4095u64 == 0) == (x % 4096 == 0),
        x & !4095u64 == x - x % 4096,
{
    assert((x & 4095u64 == 0) == (x % 4096 == 0)) by (bit_vector);
    assert(x & !4095u64 == x - x % 4096) by (bit_vector);
}

impl PhysicalAddress {
    pub fn new(addr: u64) -> (r: Self)
        ensures
            r@ == addr,
    {
        PhysicalAddress(addr)
    }

    pub fn as_u64(self) -> (r: u64)
        ensures
            r == self@,
    {
        self.0
    }

    /// Reports whether this address lies on a 4 KiB boundary.
    pub fn is_aligned(self) -> (r: bool)
        ensures
            r == (self@ % 4096 == 0),
    {
        proof {
            lemma_mask_is_mod(self.0);
        }
        self.0 & FRAME_MASK == 0
    }

    /// Rounds this address down to the enclosing 4 KiB boundary.
    pub fn align_down(self) -> (r: Self)
        ensures
            r@ == align_down_value(self@ as int),
            r@ % 4096 == 0,
            r@ <= self@,
            self@ - r@ < 4096,
    {
        proof {
            lemma_mask_is_mod(self.0);
        }
        PhysicalAddress(self.0 & !FRAME_MASK)
    }

    /// Rounds this address up to the next 4 KiB boundary.
    ///
    /// The caller must ensure that boundary exists in the address space.
    pub fn align_up(self) -> (r: Self)
        requires
            align_up_value(self@ as int) <= u64::MAX,
        ensures
            r@ == align_up_value(self@ as int),
            r@ % 4096 == 0,
            r@ >= self@,
            r@ - self@ < 4096,
    {
        self.checked_align_up().unwrap()
    }

    /// Rounds this address up to the next 4 KiB boundary if one exists.
    pub fn checked_align_up(self) -> (r: Option<Self>)
        ensures
            r is Some <==> align_up_value(self@ as int) <= u64::MAX,
            r is Some <==> self@ <= LAST_FRAME_START,
            r matches Some(a) ==> a@ == align_up_value(self@ as int) && a@ % 4096 == 0
                && a@ >= self@ && a@ - self@ < 4096,
    {
        if self.is_aligned() {
            return Some(self);
        }
        match self.0.checked_add(FRAME_MASK) {
            Some(value) => {
                let v = self.0;
                assert(value & !4095u64 == v - v % 4096 + 4096) by (bit_vector)
                    requires
                        value == v + 4095,
                        v % 4096 != 0,
                ;
                Some(PhysicalAddress(value & !FRAME_MASK))
            },
            None => None,
        }
    }
}

/// One 4 KiB physical frame identified by its aligned starting address.
#[derive(Clone, Copy, Debug, PartialEq, Eq, Structural, Ord)]
pub struct PhysicalFrame {
    start: PhysicalAddress,
}

impl View for PhysicalFrame {
    type V = u64;

    /// The frame's starting physical address.
    closed spec fn view(&self) -> u64 {
        self.start.0
    }
}

impl PartialOrd for PhysicalFrame {
    fn partial_cmp(&self, other: &Self) -> (r: Option<Ordering>) {
        if self.start.0 < other.start.0 {
            Some(Ordering::Less)
        } else if self.start.0 == other.start.0 {
            Some(Ordering::Equal)
        } else {
            Some(Ordering::Greater)
        }
    }
}

impl vstd::std_specs::cmp::PartialOrdSpecImpl for PhysicalFrame {
    open spec fn obeys_partial_cmp_spec() -> bool {
        true
    }

    open spec fn partial_cmp_spec(&self, other: &Self) -> Option<Ordering> {
        order_of(self@, other@)
    }
}

impl PhysicalFrame {
    #[verifier::type_invariant]
    spec fn start_is_aligned(self) -> bool {
        self.start.0 % 4096 == 0
    }

    /// Two frames with the same start address are the same frame.
    pub proof fn lemma_eq(a: Self, b: Self)
        requires
            a@ == b@,
        ensures
            a == b,
    {
    }

    /// Builds a physical frame only if `addr` is already aligned to 4 KiB.
    pub fn from_start_address(addr: PhysicalAddress) -> (r: Option<Self>)
        ensures
            r is Some <==> addr@ % 4096 == 0,
            r matches Some(f) ==> f@ == addr@,
    {
        if addr.is_aligned() {
            Some(PhysicalFrame { start: addr })
        } else {
            None
        }
    }

    pub fn start_address(self) -> (r: PhysicalAddress)
        ensures
            r@ == self@,
            r@ % 4096 == 0,
    {
        proof {
            use_type_invariant(self);
        }
        self.start
    }

    /// Reports whether `addr` lies inside this frame.
    ///
    /// The last frame of the address space, whose end does not fit in a `u64`,
    /// reports no address as contained.
    pub fn contains_address(self, addr: PhysicalAddress) -> (r: bool)
        ensures
            r == (self@ + 4096 <= u64::MAX && self@ <= addr@ && addr@ < self@ + 4096),
    {
        let start = self.start.as_u64();
        let value = addr.as_u64();
        match start.checked_add(FRAME_SIZE) {
            Some(end) => value >= start && value < end,
            None => false,
        }
    }

    /// Advances to the next 4 KiB physical frame if the address does not overflow.
    pub fn checked_next(self) -> (r: Option<Self>)
        ensures
            r is Some <==> self@ + 4096 <= u64::MAX,
            r matches Some(f) ==> f@ == self@ + 4096,
    {
        proof {
            use_type_invariant(self);
        }
        match self.start.as_u64().checked_add(FRAME_SIZE) {
            Some(next_start) => Some(PhysicalFrame { start: PhysicalAddress::new(next_start) }),
            None => None,
        }
    }

    /// Advances to the next 4 KiB physical frame; the caller must ensure it exists.
    pub fn next(self) -> (r: Self)
        requires
            self@ + 4096 <= u64::MAX,
        ensures
            r@ == self@ + 4096,
    {
        self.checked_next().unwrap()
    }
}

} // verus!
