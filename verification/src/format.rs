use vstd::prelude::*;
use crate::pit::ticks_to_millis;
use crate::text::{decimal_chars, push_all, to_decimal};

verus! {

pub open spec fn millis_spec(ticks: u64) -> int {
    (if ticks * 1000 > u64::MAX {
        u64::MAX as int
    } else {
        ticks * 1000
    }) / 100
}

/// Milliseconds after `ticks` timer ticks.
pub fn ticks_to_ms(ticks: u64) -> (ms: u64)
    ensures
        ms == millis_spec(ticks),
{
    ticks_to_millis(ticks)
}

/// Hours, minutes, seconds and milliseconds after `ticks` timer ticks.
pub open spec fn duration_spec(ticks: u64) -> (u64, u64, u64, u64) {
    let total_ms = millis_spec(ticks);
    let total_s = total_ms / 1000;
    (
        (total_s / 3600) as u64,
        ((total_s % 3600) / 60) as u64,
        (total_s % 60) as u64,
        (total_ms % 1000) as u64,
    )
}

pub fn format_duration_from_ticks(ticks: u64) -> (r: (u64, u64, u64, u64))
    ensures
        r == duration_spec(ticks),
{
    let total_ms = ticks_to_ms(ticks);
    let total_seconds = total_ms / 1000;
    let ms = total_ms % 1000;
    let hours = total_seconds / 3600;
    let minutes = (total_seconds % 3600) / 60;
    let seconds = total_seconds % 60;
    (hours, minutes, seconds, ms)
}

/// A byte count as `meminfo` and `ls` show it: `~M.r MB` from 1 MiB on
/// (`r` the remainder in 10 KiB units), `~K.r KB` from 1 KiB on (`r` the
/// remainder in tenths), `N B` below.
pub open spec fn format_bytes_spec(bytes: usize) -> Seq<char> {
    let b = bytes as nat;
    if b >= 1048576 {
        seq!['~'] + decimal_chars(b / 1048576) + seq!['.'] + decimal_chars((b % 1048576) / 10240)
            + seq![' ', 'M', 'B']
    } else if b >= 1024 {
        seq!['~'] + decimal_chars(b / 1024) + seq!['.'] + decimal_chars((b % 1024) * 10 / 1024)
            + seq![' ', 'K', 'B']
    } else {
        decimal_chars(b) + seq![' ', 'B']
    }
}

pub fn format_bytes(bytes: usize) -> (r: Vec<char>)
    ensures
        r@ == format_bytes_spec(bytes),
{
    let mut out: Vec<char> = Vec::new();
    if bytes >= 1024 * 1024 {
        let mb = bytes / (1024 * 1024);
        let rem = (bytes % (1024 * 1024)) / (1024 * 10);
        out.push('~');
        push_all(&mut out, to_decimal(mb as u64).as_slice());
        out.push('.');
        push_all(&mut out, to_decimal(rem as u64).as_slice());
        push_all(&mut out, &[' ', 'M', 'B']);
    } else if bytes >= 1024 {
        let kb = bytes / 1024;
        let rem = (bytes % 1024) * 10 / 1024;
        out.push('~');
        push_all(&mut out, to_decimal(kb as u64).as_slice());
        out.push('.');
        push_all(&mut out, to_decimal(rem as u64).as_slice());
        push_all(&mut out, &[' ', 'K', 'B']);
    } else {
        push_all(&mut out, to_decimal(bytes as u64).as_slice());
        push_all(&mut out, &[' ', 'B']);
    }
    assert(out@ =~= format_bytes_spec(bytes));
    out
}


/// The share of the elapsed ticks a task ran, in percent, as `top` shows it:
/// its ticks times 100 (saturating) over all ticks; 0 before the first tick.
pub fn cpu_percent(run_ticks: u64, total_ticks: u64) -> (p: u64)
    ensures
        p == (if total_ticks == 0 {
            0
        } else {
            (if run_ticks * 100 > u64::MAX {
                u64::MAX as int
            } else {
                run_ticks * 100
            }) / (total_ticks as int)
        }),
{
    if total_ticks == 0 {
        return 0;
    }
    let scaled = match run_ticks.checked_mul(100) {
        Some(v) => v,
        None => u64::MAX,
    };
    scaled / total_ticks
}

} // verus!
