use vstd::prelude::*;

verus! {

/// One `out` instruction: a byte written to an I/O port.
#[derive(Debug, Clone, Copy, PartialEq, Eq, Structural)]
pub struct PortWrite {
    pub port: u16,
    pub value: u8,
}

pub open spec fn pw(port: u16, value: u8) -> PortWrite {
    PortWrite { port, value }
}

} // verus!
