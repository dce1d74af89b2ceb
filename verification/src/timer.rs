//! The timer tick count and the PIT programming that drives it.
use vstd::prelude::*;

verus! {

/// Timer interrupts per second.
pub const TIMER_HZ: u32 = 100;

/// The PIT's input clock, in Hz.
pub const PIT_FREQUENCY: u32 = 1_193_182;

/// The PIT command selecting channel 0, lobyte/hibyte access, rate generator.
pub const PIT_COMMAND: u8 = 0x36;

/// The number of timer interrupts since boot.
pub struct TickCounter {
    pub count: u64,
}

impl TickCounter {
    /// No ticks yet.
    pub fn new() -> (r: Self)
        ensures
            r.count == 0,
    {
        TickCounter { count: 0 }
    }
}

/// Counts one timer interrupt; the count wraps around at `u64::MAX`.
pub fn tick(counter: &mut TickCounter)
    ensures
        final(counter).count == (if old(counter).count == u64::MAX {
            0
        } else {
            old(counter).count + 1
        }),
{
    counter.count = counter.count.wrapping_add(1);
}

/// The number of timer interrupts so far.
pub fn ticks(counter: &TickCounter) -> (r: u64)
    ensures
        r == counter.count,
{
    counter.count
}

/// Whole seconds in `ticks` timer interrupts.
pub fn seconds(ticks: u64) -> (r: u64)
    ensures
        r == ticks / (TIMER_HZ as u64),
{
    ticks / (TIMER_HZ as u64)
}

/// The PIT channel 0 divisor for `TIMER_HZ`, as the low and high bytes the
/// channel takes one after the other.
pub fn pit_divisor_bytes() -> (r: (u8, u8))
    ensures
        r.0 as int + 256 * (r.1 as int) == PIT_FREQUENCY / TIMER_HZ,
{
    let divisor = PIT_FREQUENCY / TIMER_HZ;
    assert(divisor == 11931);
    let lo = (divisor & 0xff) as u8;
    let hi = (divisor >> 8u32) as u8;
    assert(lo == 155 && hi == 46) by (bit_vector)
        requires
            divisor == 11931u32,
            lo == (divisor & 0xff) as u8,
            hi == (divisor >> 8u32) as u8,
    ;
    (lo, hi)
}

} // verus!
