//! Timing of one CPU load cycle: after the busy part of a cycle, the thread sleeps
//! for the rest of the cycle, but never for less than a minimum.
use vstd::prelude::*;

verus! {

/// Length of one load cycle, in milliseconds.
pub const CPU_CYCLE_DURATION_MS: u64 = 10;

/// Shortest sleep at the end of a cycle, in microseconds.
pub const MIN_SLEEP_MICROS: u64 = 100;

/// Length of one load cycle, in nanoseconds.
pub const CPU_CYCLE_NANOS: u128 = 10_000_000;

/// Shortest sleep at the end of a cycle, in nanoseconds.
pub const MIN_SLEEP_NANOS: u128 = 100_000;

/// How long a cycle sleeps, in nanoseconds, once `elapsed` nanoseconds of it have
/// passed: what is left of the cycle where that is more than the minimum sleep,
/// otherwise the minimum sleep.
pub open spec fn cycle_sleep(elapsed: nat) -> nat {
    let left: nat = if elapsed < CPU_CYCLE_NANOS { (CPU_CYCLE_NANOS - elapsed) as nat } else { 0 };
    if left > MIN_SLEEP_NANOS {
        left
    } else {
        MIN_SLEEP_NANOS as nat
    }
}

/// How long the cycle sleeps, in nanoseconds, after `elapsed_nanos` of it.
pub fn cycle_sleep_nanos(elapsed_nanos: u128) -> (r: u128)
    ensures
        r == cycle_sleep(elapsed_nanos as nat),
{
    let left = CPU_CYCLE_NANOS.saturating_sub(elapsed_nanos);
    if left > MIN_SLEEP_NANOS {
        left
    } else {
        MIN_SLEEP_NANOS
    }
}

/// A cycle never sleeps for less than the minimum, nor for longer than a cycle.
pub proof fn lemma_sleep_bounds(elapsed: nat)
    ensures
        MIN_SLEEP_NANOS <= cycle_sleep(elapsed) <= CPU_CYCLE_NANOS,
{
}

/// While the busy part leaves more than the minimum sleep, the cycle keeps its
/// length: busy time and sleep add up to one cycle.
pub proof fn lemma_cycle_keeps_its_length(elapsed: nat)
    requires
        elapsed + MIN_SLEEP_NANOS < CPU_CYCLE_NANOS,
    ensures
        elapsed + cycle_sleep(elapsed) == CPU_CYCLE_NANOS,
{
}

/// Once the busy part has taken all but the minimum sleep, or more, the cycle sleeps
/// exactly the minimum.
pub proof fn lemma_overrun_sleeps_minimum(elapsed: nat)
    requires
        elapsed + MIN_SLEEP_NANOS >= CPU_CYCLE_NANOS,
    ensures
        cycle_sleep(elapsed) == MIN_SLEEP_NANOS,
{
}

/// In nanoseconds: a cycle of 10 ms sleeps `10_000_000 - elapsed` while that is at
/// least 100 µs, and 100 µs otherwise.
pub proof fn lemma_cycle_sleep_values(elapsed: nat)
    ensures
        elapsed <= 9_900_000 ==> cycle_sleep(elapsed) == 10_000_000 - elapsed,
        elapsed >= 9_900_000 ==> cycle_sleep(elapsed) == 100_000,
{
}

} // verus!
