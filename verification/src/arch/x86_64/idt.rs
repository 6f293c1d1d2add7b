use vstd::prelude::*;

verus! {

/// Vectors in the x86_64 interrupt descriptor table.
pub const IDT_ENTRY_COUNT: usize = 256;

/// The kernel's 64-bit code segment selector, loaded by the bootstrap path.
pub const KERNEL_CODE_SELECTOR: u16 = 0x8;

/// Type and attribute byte of a present ring-0 64-bit interrupt gate.
pub const INTERRUPT_GATE_ATTRIBUTES: u8 = 0x8E;

/// What one IDT entry describes.
pub struct IdtEntryView {
    /// The 64-bit handler address.
    pub handler: u64,
    pub selector: u16,
    /// The interrupt stack table slot, 0 for none.
    pub ist: u8,
    pub attributes: u8,
}

/// One 16-byte x86_64 interrupt descriptor table entry.
///
/// The kernel uses these entries to map selected exception vectors to fixed
/// handler entrypoints. Every installed entry targets the kernel code segment
/// and either uses no IST override or one of the dedicated fault stacks set up
/// by bootstrap code.
#[derive(Clone, Copy, Debug, PartialEq, Eq, Structural)]
pub struct IdtEntry {
    offset_low: u16,
    selector: u16,
    ist: u8,
    attributes: u8,
    offset_mid: u16,
    offset_high: u32,
}

impl View for IdtEntry {
    type V = IdtEntryView;

    closed spec fn view(&self) -> IdtEntryView {
        IdtEntryView {
            handler: (self.offset_low as u64) | ((self.offset_mid as u64) << 16u64) | ((
            self.offset_high as u64) << 32u64),
            selector: self.selector,
            ist: self.ist,
            attributes: self.attributes,
        }
    }
}

/// The entry for a vector with no handler.
pub open spec fn missing_entry() -> IdtEntryView {
    IdtEntryView { handler: 0, selector: 0, ist: 0, attributes: 0 }
}

/// The present interrupt gate for `handler` on IST slot `ist`.
pub open spec fn gate_entry(handler: u64, ist: u8) -> IdtEntryView {
    IdtEntryView {
        handler,
        selector: KERNEL_CODE_SELECTOR,
        ist: ist & 7,
        attributes: INTERRUPT_GATE_ATTRIBUTES,
    }
}

/// The low quadword of the descriptor the processor reads for entry `e`.
pub open spec fn descriptor_low(e: IdtEntryView) -> u64 {
    (e.handler & 0xffff) | ((e.selector as u64) << 16u64) | ((e.ist as u64) << 32u64) | ((
    e.attributes as u64) << 40u64) | (((e.handler >> 16u64) & 0xffff) << 48u64)
}

/// The high quadword of the descriptor the processor reads for entry `e`.
pub open spec fn descriptor_high(e: IdtEntryView) -> u64 {
    e.handler >> 32u64
}

impl IdtEntry {
    /// The entry of a vector with no handler installed.
    pub fn missing() -> (r: Self)
        ensures
            r@ == missing_entry(),
    {
        let r = IdtEntry {
            offset_low: 0,
            selector: 0,
            ist: 0,
            attributes: 0,
            offset_mid: 0,
            offset_high: 0,
        };
        assert((0u16 as u64) | ((0u16 as u64) << 16u64) | ((0u32 as u64) << 32u64) == 0u64)
            by (bit_vector);
        r
    }

    /// Builds a present interrupt gate for a 64-bit handler address.
    ///
    /// The handler runs in selector `0x8`, the kernel 64-bit code segment
    /// loaded by the bootstrap path, with attributes `0x8E`: a present interrupt
    /// gate at privilege level 0. `ist` is masked to its low three bits because
    /// entries only encode IST slots 0 through 7; the kernel relies on that field
    /// to route `#DF` through IST1 and `#PF` through IST2.
    pub fn new(handler: u64, ist: u8) -> (r: Self)
        ensures
            r@ == gate_entry(handler, ist),
    {
        let offset_low = (handler & 0xFFFF) as u16;
        let offset_mid = ((handler >> 16) & 0xFFFF) as u16;
        let offset_high = (handler >> 32) as u32;
        assert((((handler & 0xFFFFu64) as u16) as u64) | (((((handler >> 16u64) & 0xFFFFu64) as u16)
            as u64) << 16u64) | ((((handler >> 32u64) as u32) as u64) << 32u64) == handler)
            by (bit_vector);
        IdtEntry {
            offset_low,
            selector: KERNEL_CODE_SELECTOR,
            ist: ist & 0x7,
            attributes: INTERRUPT_GATE_ATTRIBUTES,
            offset_mid,
            offset_high,
        }
    }

    /// The two quadwords of the 16-byte descriptor, low first, in the layout
    /// the processor reads: handler bits 0-15, selector, IST, attributes,
    /// handler bits 16-31; then handler bits 32-63 and a reserved zero half.
    pub fn descriptor(&self) -> (r: (u64, u64))
        ensures
            r.0 == descriptor_low(self@),
            r.1 == descriptor_high(self@),
    {
        let lo = (self.offset_low as u64) | ((self.selector as u64) << 16) | ((self.ist as u64) << 32)
            | ((self.attributes as u64) << 40) | ((self.offset_mid as u64) << 48);
        let hi = self.offset_high as u64;
        let ol = self.offset_low;
        let om = self.offset_mid;
        let oh = self.offset_high;
        let sel = self.selector;
        let ist = self.ist;
        let att = self.attributes;
        assert(lo == (((ol as u64) | ((om as u64) << 16u64) | ((oh as u64) << 32u64)) & 0xffffu64)
            | ((sel as u64) << 16u64) | ((ist as u64) << 32u64) | ((att as u64) << 40u64) | (((((
        ol as u64) | ((om as u64) << 16u64) | ((oh as u64) << 32u64)) >> 16u64) & 0xffffu64) << 48u64))
            by (bit_vector)
            requires
                lo == (ol as u64) | ((sel as u64) << 16u64) | ((ist as u64) << 32u64) | ((att as u64)
                    << 40u64) | ((om as u64) << 48u64),
        ;
        assert(hi == ((ol as u64) | ((om as u64) << 16u64) | ((oh as u64) << 32u64)) >> 32u64)
            by (bit_vector)
            requires
                hi == oh as u64,
        ;
        (lo, hi)
    }
}

/// The single 256-entry interrupt descriptor table used by the early kernel.
///
/// The table is populated during single-threaded bring-up before interrupts
/// are enabled; only the exception vectors needed for early fault visibility
/// are installed.
pub struct Idt {
    entries: [IdtEntry; IDT_ENTRY_COUNT],
}

impl View for Idt {
    type V = Seq<IdtEntryView>;

    closed spec fn view(&self) -> Seq<IdtEntryView> {
        self.entries@.map_values(|e: IdtEntry| e@)
    }
}

impl Idt {
    /// Creates an IDT with every vector marked missing.
    pub fn new() -> (r: Self)
        ensures
            r@ == Seq::new(IDT_ENTRY_COUNT as nat, |i: int| missing_entry()),
            r@.len() == IDT_ENTRY_COUNT,
    {
        let missing = IdtEntry::missing();
        let r = Idt { entries: [missing; IDT_ENTRY_COUNT] };
        assert(r@ =~= Seq::new(IDT_ENTRY_COUNT as nat, |i: int| missing_entry()));
        r
    }

    /// Every table holds exactly one entry per vector.
    pub proof fn lemma_has_all_vectors(&self)
        ensures
            self@.len() == IDT_ENTRY_COUNT,
    {
    }

    fn install(&mut self, vector: usize, entry: IdtEntry)
        requires
            vector < IDT_ENTRY_COUNT,
        ensures
            final(self)@ == old(self)@.update(vector as int, entry@),
            final(self)@.len() == IDT_ENTRY_COUNT,
    {
        self.entries[vector] = entry;
        assert(self@ =~= old(self)@.update(vector as int, entry@));
    }

    /// Installs a handler for `vector` without selecting an IST override.
    ///
    /// Used for exceptions that run on the active kernel stack rather than a
    /// dedicated IST stack.
    pub fn set(&mut self, vector: usize, handler: u64)
        requires
            vector < IDT_ENTRY_COUNT,
        ensures
            final(self)@ == old(self)@.update(vector as int, gate_entry(handler, 0)),
    {
        self.install(vector, IdtEntry::new(handler, 0))
    }

    /// Installs a handler for `vector` with a specific IST slot.
    ///
    /// Initialization uses this to route `#DF` through IST1 and `#PF` through
    /// IST2, so those destructive fault paths do not depend on the current
    /// kernel stack remaining usable.
    pub fn set_with_ist(&mut self, vector: usize, handler: u64, ist: u8)
        requires
            vector < IDT_ENTRY_COUNT,
        ensures
            final(self)@ == old(self)@.update(vector as int, gate_entry(handler, ist)),
    {
        self.install(vector, IdtEntry::new(handler, ist))
    }

    /// Marks `vector` missing again.
    pub fn clear(&mut self, vector: usize)
        requires
            vector < IDT_ENTRY_COUNT,
        ensures
            final(self)@ == old(self)@.update(vector as int, missing_entry()),
    {
        self.install(vector, IdtEntry::missing())
    }

    /// The entry installed for `vector`.
    pub fn entry(&self, vector: usize) -> (r: IdtEntry)
        requires
            vector < IDT_ENTRY_COUNT,
        ensures
            r@ == self@[vector as int],
    {
        self.entries[vector]
    }
}

/// Vector of the divide-error exception.
pub const DIVIDE_ERROR_VECTOR: usize = 0;

/// Vector of the invalid-opcode exception.
pub const INVALID_OPCODE_VECTOR: usize = 6;

/// Vector of the double-fault exception, routed through IST1.
pub const DOUBLE_FAULT_VECTOR: usize = 8;

/// Vector of the general-protection exception.
pub const GENERAL_PROTECTION_VECTOR: usize = 13;

/// Vector of the page-fault exception, routed through IST2.
pub const PAGE_FAULT_VECTOR: usize = 14;

/// The table the kernel loads at startup, given the addresses of its five
/// exception handlers: divide error, invalid opcode, double fault on IST1,
/// general protection, and page fault on IST2; every other vector is missing.
pub open spec fn kernel_table(
    divide_error: u64,
    invalid_opcode: u64,
    double_fault: u64,
    general_protection: u64,
    page_fault: u64,
) -> Seq<IdtEntryView> {
    Seq::new(IDT_ENTRY_COUNT as nat, |i: int| missing_entry()).update(
        DIVIDE_ERROR_VECTOR as int,
        gate_entry(divide_error, 0),
    ).update(INVALID_OPCODE_VECTOR as int, gate_entry(invalid_opcode, 0)).update(
        DOUBLE_FAULT_VECTOR as int,
        gate_entry(double_fault, 1),
    ).update(GENERAL_PROTECTION_VECTOR as int, gate_entry(general_protection, 0)).update(
        PAGE_FAULT_VECTOR as int,
        gate_entry(page_fault, 2),
    )
}

/// Populates a fresh table with the exception vectors the early kernel handles.
///
/// `#DF` is routed through IST1 and `#PF` through IST2 so those destructive
/// fault paths run on their dedicated stacks; the other handlers run on the
/// current kernel stack.
pub fn kernel_idt(
    divide_error: u64,
    invalid_opcode: u64,
    double_fault: u64,
    general_protection: u64,
    page_fault: u64,
) -> (r: Idt)
    ensures
        r@ == kernel_table(divide_error, invalid_opcode, double_fault, general_protection, page_fault),
        r@.len() == IDT_ENTRY_COUNT,
        r@[DOUBLE_FAULT_VECTOR as int].ist == 1,
        r@[PAGE_FAULT_VECTOR as int].ist == 2,
{
    let mut idt = Idt::new();
    idt.set(DIVIDE_ERROR_VECTOR, divide_error);
    idt.set(INVALID_OPCODE_VECTOR, invalid_opcode);
    idt.set_with_ist(DOUBLE_FAULT_VECTOR, double_fault, 1);
    idt.set(GENERAL_PROTECTION_VECTOR, general_protection);
    idt.set_with_ist(PAGE_FAULT_VECTOR, page_fault, 2);
    assert(1u8 & 7u8 == 1u8) by (bit_vector);
    assert(2u8 & 7u8 == 2u8) by (bit_vector);
    idt
}

/// The descriptor of an entry gives back the handler address it was built
/// from: bits 0-15 from the low quadword, bits 16-31 from its top half, and
/// bits 32-63 from the high quadword.
pub proof fn lemma_descriptor_encodes_handler(handler: u64, ist: u8)
    ensures
        ({
            let e = gate_entry(handler, ist);
            let lo = descriptor_low(e);
            let hi = descriptor_high(e);
            &&& (lo & 0xffffu64) | ((lo >> 48u64) << 16u64) | (hi << 32u64) == handler
            &&& (lo >> 16u64) & 0xffffu64 == KERNEL_CODE_SELECTOR as u64
            &&& (lo >> 32u64) & 0xffu64 == (ist & 7u8) as u64
            &&& (lo >> 40u64) & 0xffu64 == INTERRUPT_GATE_ATTRIBUTES as u64
        }),
{
    let i = (ist & 7u8) as u64;
    assert(i < 8) by (bit_vector)
        requires
            i == (ist & 7u8) as u64,
    ;
    let lo = (handler & 0xffff) | (8u64 << 16u64) | (i << 32u64) | (0x8Eu64 << 40u64) | (((handler
        >> 16u64) & 0xffff) << 48u64);
    assert((lo & 0xffffu64) | ((lo >> 48u64) << 16u64) | ((handler >> 32u64) << 32u64) == handler)
        by (bit_vector)
        requires
            lo == (handler & 0xffff) | (8u64 << 16u64) | (i << 32u64) | (0x8Eu64 << 40u64) | (((
            handler >> 16u64) & 0xffff) << 48u64),
            i < 8,
    ;
    assert((lo >> 16u64) & 0xffffu64 == 8u64) by (bit_vector)
        requires
            lo == (handler & 0xffff) | (8u64 << 16u64) | (i << 32u64) | (0x8Eu64 << 40u64) | (((
            handler >> 16u64) & 0xffff) << 48u64),
            i < 8,
    ;
    assert((lo >> 32u64) & 0xffu64 == i) by (bit_vector)
        requires
            lo == (handler & 0xffff) | (8u64 << 16u64) | (i << 32u64) | (0x8Eu64 << 40u64) | (((
            handler >> 16u64) & 0xffff) << 48u64),
            i < 8,
    ;
    assert((lo >> 40u64) & 0xffu64 == 0x8Eu64) by (bit_vector)
        requires
            lo == (handler & 0xffff) | (8u64 << 16u64) | (i << 32u64) | (0x8Eu64 << 40u64) | (((
            handler >> 16u64) & 0xffff) << 48u64),
            i < 8,
    ;
}

/// The stack frame pushed by the CPU for x86_64 interrupt and exception entry.
pub struct InterruptFrame {
    pub rip: u64,
    pub cs: u64,
    pub rflags: u64,
    pub rsp: u64,
    pub ss: u64,
}

} // verus!
