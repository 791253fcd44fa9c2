use vstd::prelude::*;

verus! {

/// Number of interrupt vectors.
pub const IDT_ENTRIES: usize = 256;

/// Gate type of a present ring-0 32-bit interrupt gate.
pub const INTERRUPT_GATE: u8 = 0x8E;

/// An interrupt gate descriptor, field by field.
#[derive(Debug, Clone, Copy, PartialEq, Eq, Structural)]
pub struct IdtEntry {
    pub offset_low: u16,
    pub selector: u16,
    pub zero: u8,
    pub type_attr: u8,
    pub offset_high: u16,
}

/// The frame the CPU pushes when it enters an interrupt handler.
#[derive(Debug, Clone, Copy)]
pub struct InterruptStackFrame {
    pub instruction_pointer: u32,
    pub code_segment: u32,
    pub cpu_flags: u32,
    pub stack_pointer: u32,
    pub stack_segment: u32,
}

pub open spec fn missing_spec() -> IdtEntry {
    IdtEntry { offset_low: 0, selector: 0, zero: 0, type_attr: 0, offset_high: 0 }
}

/// A present interrupt gate to the handler at `pointer` in code segment `cs`.
pub open spec fn gate_spec(pointer: u32, cs: u16) -> IdtEntry {
    IdtEntry {
        offset_low: (pointer % 0x1_0000) as u16,
        selector: cs,
        zero: 0,
        type_attr: INTERRUPT_GATE,
        offset_high: (pointer / 0x1_0000) as u16,
    }
}

impl IdtEntry {
    /// An absent gate.
    pub fn missing() -> (e: IdtEntry)
        ensures
            e == missing_spec(),
    {
        IdtEntry { offset_low: 0, selector: 0, zero: 0, type_attr: 0, offset_high: 0 }
    }

    /// Makes this a present interrupt gate to the handler at `pointer`, in
    /// the code segment `cs` (the kernel's current one).
    pub fn set_handler_raw(&mut self, pointer: u32, cs: u16)
        ensures
            *final(self) == gate_spec(pointer, cs),
    {
        let low = (pointer & 0xFFFF) as u16;
        let high = (pointer >> 16) as u16;
        assert(low == pointer % 0x1_0000 && high == pointer / 0x1_0000) by (bit_vector)
            requires
                low == (pointer & 0xFFFF) as u16,
                high == (pointer >> 16) as u16,
        ;
        self.offset_low = low;
        self.selector = cs;
        self.zero = 0;
        self.type_attr = INTERRUPT_GATE;
        self.offset_high = high;
    }
}

/// The interrupt descriptor table: 256 gates.
pub struct InterruptDescriptorTable {
    entries: Vec<IdtEntry>,
}

impl View for InterruptDescriptorTable {
    type V = Seq<IdtEntry>;

    closed spec fn view(&self) -> Seq<IdtEntry> {
        self.entries@
    }
}

impl InterruptDescriptorTable {
    /// A table of 256 absent gates.
    pub fn new() -> (t: InterruptDescriptorTable)
        ensures
            t@ == Seq::new(IDT_ENTRIES as nat, |i: int| missing_spec()),
    {
        let mut entries: Vec<IdtEntry> = Vec::new();
        let mut i: usize = 0;
        while i < IDT_ENTRIES
            invariant
                i <= IDT_ENTRIES,
                entries@ == Seq::new(i as nat, |k: int| missing_spec()),
            decreases IDT_ENTRIES - i,
        {
            entries.push(IdtEntry::missing());
            i += 1;
            assert(entries@ =~= Seq::new(i as nat, |k: int| missing_spec()));
        }
        InterruptDescriptorTable { entries }
    }

    /// Installs the handler at `pointer` for vector `index`.
    pub fn set_handler_ptr(&mut self, index: usize, pointer: u32, cs: u16)
        requires
            old(self)@.len() == IDT_ENTRIES,
            index < IDT_ENTRIES,
        ensures
            final(self)@ == old(self)@.update(index as int, gate_spec(pointer, cs)),
    {
        let mut e = self.entries[index];
        e.set_handler_raw(pointer, cs);
        self.entries.set(index, e);
    }

    /// The descriptor at vector `index`.
    pub fn entry(&self, index: usize) -> (e: IdtEntry)
        requires
            index < self@.len(),
        ensures
            e == self@[index as int],
    {
        self.entries[index]
    }
}

/// Operand of `lidt`: table size minus one and base address.
#[derive(Debug, Clone, Copy)]
pub struct IdtPtr {
    pub limit: u16,
    pub base: u32,
}

impl IdtPtr {
    pub fn for_table(base: u32) -> (p: IdtPtr)
        ensures
            p.limit == 8 * IDT_ENTRIES - 1,
            p.base == base,
    {
        IdtPtr { limit: 2047, base }
    }
}

/// A gate points back at its handler: the two offset halves rebuild the
/// handler address.
pub proof fn law_gate_round_trip(pointer: u32, cs: u16)
    ensures
        gate_spec(pointer, cs).offset_low + gate_spec(pointer, cs).offset_high * 0x1_0000
            == pointer,
        gate_spec(pointer, cs).selector == cs,
        gate_spec(pointer, cs).type_attr == INTERRUPT_GATE,
{
}

} // verus!
