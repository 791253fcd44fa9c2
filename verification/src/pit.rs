use vstd::prelude::*;
use crate::port::{pw, PortWrite};

verus! {

/// Frequency of the programmable interval timer's input clock, in Hz.
pub const PIT_INPUT_HZ: u32 = 1_193_182;

/// Timer frequency used when none (or zero) is requested.
pub const DEFAULT_HZ: u32 = 100;

/// Timer interrupts per second with the default configuration.
pub const TICKS_PER_SECOND: u64 = 100;

/// Milliseconds elapsed after `ticks` timer interrupts at the default rate.
/// The multiplication saturates at `u64::MAX`.
pub fn ticks_to_millis(ticks: u64) -> (ms: u64)
    ensures
        ms == (if ticks * 1000 > u64::MAX { u64::MAX as int } else { ticks * 1000 }) / 100,
{
    let scaled = match ticks.checked_mul(1000) {
        Some(v) => v,
        None => u64::MAX,
    };
    scaled / TICKS_PER_SECOND
}

pub const PIT_CHANNEL0: u16 = 0x40;

pub const PIT_COMMAND: u16 = 0x43;

/// Channel 0, low byte then high byte, mode 3 (square wave), binary.
pub const PIT_MODE: u8 = 0x36;

/// How the timer is programmed for a requested rate.
#[derive(Debug, Clone, Copy)]
pub struct PitConfig {
    /// The rate asked for (zero means the default).
    pub hz: u32,
    /// Input-clock divisor.
    pub divisor: u16,
    /// The rate the divisor gives.
    pub actual_hz: u32,
}

pub open spec fn divisor_spec(requested_hz: u32) -> int {
    let hz = if requested_hz == 0 { DEFAULT_HZ } else { requested_hz };
    let d = PIT_INPUT_HZ / hz;
    if d < 1 {
        1
    } else if d > 65535 {
        65535
    } else {
        d as int
    }
}

/// The timer setup for `requested_hz`: the divisor of the 1.193182 MHz
/// input clock, kept within 1..=65535, and the rate it yields.
pub fn configure(requested_hz: u32) -> (c: PitConfig)
    ensures
        c.hz == (if requested_hz == 0 { DEFAULT_HZ } else { requested_hz }),
        c.divisor == divisor_spec(requested_hz),
        c.actual_hz == (PIT_INPUT_HZ as int) / divisor_spec(requested_hz),
{
    let hz = if requested_hz == 0 {
        DEFAULT_HZ
    } else {
        requested_hz
    };
    let raw = PIT_INPUT_HZ / hz;
    let divisor_u32 = if raw < 1 {
        1
    } else if raw > 65535 {
        65535
    } else {
        raw
    };
    let divisor = divisor_u32 as u16;
    let actual_hz = PIT_INPUT_HZ / divisor_u32;
    PitConfig { hz, divisor, actual_hz }
}

/// The timer setup the kernel uses: the default rate.
pub fn init_default() -> (c: PitConfig)
    ensures
        c.hz == DEFAULT_HZ,
        c.divisor == divisor_spec(DEFAULT_HZ),
        c.actual_hz == (PIT_INPUT_HZ as int) / divisor_spec(DEFAULT_HZ),
{
    configure(DEFAULT_HZ)
}

impl PitConfig {
    /// The port writes that program channel 0: the mode, then the divisor,
    /// low byte first.
    pub fn port_writes(&self) -> (w: Vec<PortWrite>)
        ensures
            w@ == seq![
                pw(PIT_COMMAND, PIT_MODE),
                pw(PIT_CHANNEL0, (self.divisor % 0x100) as u8),
                pw(PIT_CHANNEL0, (self.divisor / 0x100) as u8),
            ],
    {
        let mut w: Vec<PortWrite> = Vec::new();
        w.push(PortWrite { port: PIT_COMMAND, value: PIT_MODE });
        w.push(PortWrite { port: PIT_CHANNEL0, value: (self.divisor % 0x100) as u8 });
        w.push(PortWrite { port: PIT_CHANNEL0, value: (self.divisor / 0x100) as u8 });
        assert(w@ =~= seq![
            pw(PIT_COMMAND, PIT_MODE),
            pw(PIT_CHANNEL0, (self.divisor % 0x100) as u8),
            pw(PIT_CHANNEL0, (self.divisor / 0x100) as u8),
        ]);
        w
    }
}

/// The default setup ticks at 100 Hz, as `TICKS_PER_SECOND` says.
pub proof fn law_default_rate()
    ensures
        divisor_spec(DEFAULT_HZ) == 11931,
        (PIT_INPUT_HZ as int) / divisor_spec(DEFAULT_HZ) == 100,
        TICKS_PER_SECOND == DEFAULT_HZ,
{
}

/// Any requested rate gives a divisor the 16-bit counter can hold and a
/// rate no higher than the input clock.
pub proof fn law_divisor_in_range(requested_hz: u32)
    ensures
        1 <= divisor_spec(requested_hz) <= 65535,
        (PIT_INPUT_HZ as int) / divisor_spec(requested_hz) <= PIT_INPUT_HZ as int,
{
    let d = divisor_spec(requested_hz);
    assert((PIT_INPUT_HZ as int) / d <= PIT_INPUT_HZ as int) by (nonlinear_arith)
        requires
            d >= 1,
    ;
}

} // verus!
