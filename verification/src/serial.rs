use vstd::prelude::*;
use vstd::string::StringSliceAdditionalSpecFns;
use crate::port::{pw, PortWrite};

verus! {

/// I/O base of the first serial port.
pub const COM1: u16 = 0x3F8;

/// Line-status register offset and its "transmitter empty" bit.
pub const LINE_STATUS: u16 = 5;

pub const TRANSMIT_EMPTY: u8 = 0x20;

/// A 16550 UART at an I/O base.
#[derive(Debug, Clone, Copy)]
pub struct SerialPort {
    pub port: u16,
}

/// The setup: interrupts off, 38400 baud (divisor 3), 8N1, FIFO on with a
/// 14-byte threshold, IRQs, RTS and DSR set.
pub open spec fn serial_init_spec(port: u16) -> Seq<PortWrite> {
    seq![
        pw((port + 1) as u16, 0x00),
        pw((port + 3) as u16, 0x80),
        pw(port, 0x03),
        pw((port + 1) as u16, 0x00),
        pw((port + 3) as u16, 0x03),
        pw((port + 2) as u16, 0xC7),
        pw((port + 4) as u16, 0x0B),
    ]
}

/// The bytes sent for a text: each newline goes out as CR LF.
pub open spec fn wire_bytes(bytes: Seq<u8>) -> Seq<u8>
    decreases bytes.len(),
{
    if bytes.len() == 0 {
        Seq::empty()
    } else {
        let rest = wire_bytes(bytes.drop_last());
        if bytes.last() == 0x0A {
            rest + seq![0x0Du8, 0x0Au8]
        } else {
            rest.push(bytes.last())
        }
    }
}

impl SerialPort {
    pub fn new(port: u16) -> (s: SerialPort)
        ensures
            s.port == port,
    {
        SerialPort { port }
    }

    /// The port writes that set the UART up.
    pub fn init(&self) -> (w: Vec<PortWrite>)
        requires
            self.port + 5 <= u16::MAX,
        ensures
            w@ == serial_init_spec(self.port),
    {
        let p = self.port;
        let mut w: Vec<PortWrite> = Vec::new();
        w.push(PortWrite { port: p + 1, value: 0x00 });
        w.push(PortWrite { port: p + 3, value: 0x80 });
        w.push(PortWrite { port: p, value: 0x03 });
        w.push(PortWrite { port: p + 1, value: 0x00 });
        w.push(PortWrite { port: p + 3, value: 0x03 });
        w.push(PortWrite { port: p + 2, value: 0xC7 });
        w.push(PortWrite { port: p + 4, value: 0x0B });
        assert(w@ =~= serial_init_spec(self.port));
        w
    }

    /// Whether a line-status byte says the transmitter can take a byte.
    pub fn is_transmit_empty(line_status: u8) -> (r: bool)
        ensures
            r == (line_status & TRANSMIT_EMPTY != 0),
    {
        line_status & TRANSMIT_EMPTY != 0
    }
}

/// The bytes the serial port sends for `s`.
pub fn serial_bytes(s: &str) -> (out: Vec<u8>)
    ensures
        out@ == wire_bytes(s.spec_bytes()),
{
    let bytes = s.as_bytes();
    let mut out: Vec<u8> = Vec::new();
    let mut i: usize = 0;
    while i < bytes.len()
        invariant
            i <= bytes@.len(),
            out@ == wire_bytes(bytes@.subrange(0, i as int)),
        decreases bytes@.len() - i,
    {
        let b = bytes[i];
        proof {
            assert(bytes@.subrange(0, i as int + 1).drop_last() =~= bytes@.subrange(0, i as int));
        }
        if b == 0x0A {
            out.push(0x0D);
            out.push(0x0A);
        } else {
            out.push(b);
        }
        i += 1;
        proof {
            let pre = bytes@.subrange(0, i as int);
            assert(pre.last() == b);
            assert(out@ =~= wire_bytes(pre));
        }
    }
    assert(bytes@.subrange(0, bytes@.len() as int) =~= bytes@);
    out
}

/// Sending a text never drops a byte: every byte goes out, newlines as two.
pub proof fn law_wire_length(bytes: Seq<u8>)
    ensures
        wire_bytes(bytes).len() >= bytes.len(),
    decreases bytes.len(),
{
    if bytes.len() > 0 {
        law_wire_length(bytes.drop_last());
    }
}

} // verus!
