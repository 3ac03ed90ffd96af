//! How the scheduler's decay rate follows the tick time.
use vstd::prelude::*;

verus! {

/// The decay rate after a tick: while the CPUs are below their usage
/// threshold, it rises by one (up to `u8::MAX`) when the tick took longer than
/// planned and falls by one (down to zero) otherwise; above the threshold it
/// stays.  Times are in nanoseconds.
pub fn adjust_decay_rate(rate: u8, tick_cycle: u128, mspt: u128, cpu_below_threshold: bool) -> (r: u8)
    ensures
        !cpu_below_threshold ==> r == rate,
        cpu_below_threshold && mspt > tick_cycle ==> r == (if rate == u8::MAX { rate as int } else { rate + 1 }),
        cpu_below_threshold && mspt <= tick_cycle ==> r == (if rate == 0 { 0 } else { rate - 1 }),
{
    if cpu_below_threshold {
        if mspt > tick_cycle {
            rate.saturating_add(1)
        } else {
            rate.saturating_sub(1)
        }
    } else {
        rate
    }
}

} // verus!
