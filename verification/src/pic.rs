use vstd::prelude::*;
use crate::port::{pw, PortWrite};

verus! {

pub const PIC1_CMD: u16 = 0x20;

pub const PIC1_DATA: u16 = 0x21;

pub const PIC2_CMD: u16 = 0xA0;

pub const PIC2_DATA: u16 = 0xA1;

/// Port written to wait a moment between commands.
pub const IOWAIT_PORT: u16 = 0x80;

pub const PIC_EOI: u8 = 0x20;

/// Vector of IRQ 0 (the timer) after remapping.
pub const PIC_1_OFFSET: u8 = 32;

/// Vector of IRQ 8 after remapping.
pub const PIC_2_OFFSET: u8 = 40;

/// The two cascaded 8259 interrupt controllers, remapped to the vectors
/// `offset1..offset1+8` and `offset2..offset2+8`.
#[derive(Debug, Clone, Copy)]
pub struct ChainedPics {
    offset1: u8,
    offset2: u8,
}

impl View for ChainedPics {
    type V = (u8, u8);

    closed spec fn view(&self) -> (u8, u8) {
        (self.offset1, self.offset2)
    }
}

/// The initialisation sequence for the given vector offsets: ICW1 to both
/// controllers, the offsets (ICW2), the cascade wiring on IRQ 2 (ICW3),
/// 8086 mode (ICW4), each followed by a wait; then all lines unmasked.
pub open spec fn init_sequence_spec(offset1: u8, offset2: u8) -> Seq<PortWrite> {
    seq![
        pw(PIC1_CMD, 0x11),
        pw(IOWAIT_PORT, 0),
        pw(PIC2_CMD, 0x11),
        pw(IOWAIT_PORT, 0),
        pw(PIC1_DATA, offset1),
        pw(IOWAIT_PORT, 0),
        pw(PIC2_DATA, offset2),
        pw(IOWAIT_PORT, 0),
        pw(PIC1_DATA, 4),
        pw(IOWAIT_PORT, 0),
        pw(PIC2_DATA, 2),
        pw(IOWAIT_PORT, 0),
        pw(PIC1_DATA, 0x01),
        pw(IOWAIT_PORT, 0),
        pw(PIC2_DATA, 0x01),
        pw(IOWAIT_PORT, 0),
        pw(PIC1_DATA, 0x00),
        pw(PIC2_DATA, 0x00),
    ]
}

pub open spec fn handles_spec(offset1: u8, offset2: u8, id: u8) -> bool {
    offset1 <= id && id < offset2 + 8
}

/// End-of-interrupt commands for vector `id`: none if neither controller
/// raised it; the secondary is acknowledged too for its own vectors.
pub open spec fn eoi_spec(offset1: u8, offset2: u8, id: u8) -> Seq<PortWrite> {
    if !handles_spec(offset1, offset2, id) {
        Seq::empty()
    } else if id >= offset2 {
        seq![pw(PIC2_CMD, PIC_EOI), pw(PIC1_CMD, PIC_EOI)]
    } else {
        seq![pw(PIC1_CMD, PIC_EOI)]
    }
}

fn push_write(out: &mut Vec<PortWrite>, port: u16, value: u8)
    ensures
        final(out)@ == old(out)@.push(pw(port, value)),
{
    out.push(PortWrite { port, value });
}

impl ChainedPics {
    pub fn new(offset1: u8, offset2: u8) -> (p: ChainedPics)
        ensures
            p@ == (offset1, offset2),
    {
        ChainedPics { offset1, offset2 }
    }

    /// The controllers as the kernel sets them up: IRQs at vectors 32..48.
    pub fn kernel_default() -> (p: ChainedPics)
        ensures
            p@ == (PIC_1_OFFSET, PIC_2_OFFSET),
    {
        ChainedPics::new(PIC_1_OFFSET, PIC_2_OFFSET)
    }

    /// The port writes that initialise both controllers.
    pub fn initialize(&self) -> (writes: Vec<PortWrite>)
        ensures
            writes@ == init_sequence_spec(self@.0, self@.1),
    {
        let mut w: Vec<PortWrite> = Vec::new();
        push_write(&mut w, PIC1_CMD, 0x11);
        push_write(&mut w, IOWAIT_PORT, 0);
        push_write(&mut w, PIC2_CMD, 0x11);
        push_write(&mut w, IOWAIT_PORT, 0);
        push_write(&mut w, PIC1_DATA, self.offset1);
        push_write(&mut w, IOWAIT_PORT, 0);
        push_write(&mut w, PIC2_DATA, self.offset2);
        push_write(&mut w, IOWAIT_PORT, 0);
        push_write(&mut w, PIC1_DATA, 4);
        push_write(&mut w, IOWAIT_PORT, 0);
        push_write(&mut w, PIC2_DATA, 2);
        push_write(&mut w, IOWAIT_PORT, 0);
        push_write(&mut w, PIC1_DATA, 0x01);
        push_write(&mut w, IOWAIT_PORT, 0);
        push_write(&mut w, PIC2_DATA, 0x01);
        push_write(&mut w, IOWAIT_PORT, 0);
        push_write(&mut w, PIC1_DATA, 0x00);
        push_write(&mut w, PIC2_DATA, 0x00);
        assert(w@ =~= init_sequence_spec(self@.0, self@.1));
        w
    }

    /// Whether the vector belongs to one of the two controllers.
    pub fn handles_interrupt(&self, interrupt_id: u8) -> (r: bool)
        requires
            self@.1 + 8 <= u8::MAX,
        ensures
            r == handles_spec(self@.0, self@.1, interrupt_id),
    {
        self.offset1 <= interrupt_id && interrupt_id < self.offset2 + 8
    }

    /// The end-of-interrupt port writes for vector `interrupt_id`.
    pub fn notify_end_of_interrupt(&self, interrupt_id: u8) -> (writes: Vec<PortWrite>)
        requires
            self@.1 + 8 <= u8::MAX,
        ensures
            writes@ == eoi_spec(self@.0, self@.1, interrupt_id),
    {
        let mut w: Vec<PortWrite> = Vec::new();
        if self.handles_interrupt(interrupt_id) {
            if interrupt_id >= self.offset2 {
                push_write(&mut w, PIC2_CMD, PIC_EOI);
            }
            push_write(&mut w, PIC1_CMD, PIC_EOI);
        }
        assert(w@ =~= eoi_spec(self@.0, self@.1, interrupt_id));
        w
    }
}

/// Acknowledges IRQ vector `irq_idx` on the kernel's controllers.
pub fn ack(pics: &ChainedPics, irq_idx: u8) -> (writes: Vec<PortWrite>)
    requires
        pics@.1 + 8 <= u8::MAX,
    ensures
        writes@ == eoi_spec(pics@.0, pics@.1, irq_idx),
{
    pics.notify_end_of_interrupt(irq_idx)
}

/// With the kernel's offsets, exactly the vectors 32..48 are acknowledged;
/// the secondary controller only for 40..48, and always before the primary.
pub proof fn law_eoi_targets(id: u8)
    ensures
        (eoi_spec(PIC_1_OFFSET, PIC_2_OFFSET, id).len() > 0) == (32 <= id < 48),
        (eoi_spec(PIC_1_OFFSET, PIC_2_OFFSET, id).len() == 2) == (40 <= id < 48),
        eoi_spec(PIC_1_OFFSET, PIC_2_OFFSET, id).len() > 0 ==> eoi_spec(
            PIC_1_OFFSET,
            PIC_2_OFFSET,
            id,
        ).last() == pw(PIC1_CMD, PIC_EOI),
{
}

} // verus!
