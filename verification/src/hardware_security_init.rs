//! Attestation gate timing: ticks elapsed, and the one-minute limit.

use vstd::prelude::*;

verus! {

/// Seconds the attestation gate may take before boot halts.
pub const ATTESTATION_TIMEOUT_SECONDS: u64 = 60;

/// `current - start`, or zero when the counter reads below the start (it
/// wrapped, which at any realistic tick rate takes longer than the machine
/// will run).
pub open spec fn elapsed_ticks(start_tick_count: u64, current_tick_count: u64) -> u64 {
    if current_tick_count >= start_tick_count {
        (current_tick_count - start_tick_count) as u64
    } else {
        0
    }
}

/// Ticks the attestation gate may take at `ticks_per_second`, saturating at
/// the largest count the timer can hold.
pub open spec fn timeout_ticks(ticks_per_second: u64) -> u64 {
    let budget = ticks_per_second * ATTESTATION_TIMEOUT_SECONDS;
    if budget > u64::MAX {
        u64::MAX
    } else {
        budget as u64
    }
}

/// Ticks elapsed between `start_tick_count` and `current_tick_count`, the
/// timer's count now.
pub fn compute_elapsed_ticks_since(start_tick_count: u64, current_tick_count: u64) -> (elapsed:
    u64)
    ensures
        elapsed == elapsed_ticks(start_tick_count, current_tick_count),
{
    current_tick_count.saturating_sub(start_tick_count)
}

/// Whether `elapsed_ticks` exceeds the attestation budget at
/// `ticks_per_second`; reaching the budget exactly is still in time.
pub fn attestation_timed_out(elapsed_ticks: u64, ticks_per_second: u64) -> (timed_out: bool)
    ensures
        timed_out == (elapsed_ticks > timeout_ticks(ticks_per_second)),
{
    let timeout_tick_count = match ticks_per_second.checked_mul(ATTESTATION_TIMEOUT_SECONDS) {
        Some(budget) => budget,
        None => u64::MAX,
    };
    elapsed_ticks > timeout_tick_count
}

/// Law: the start plus the ticks elapsed is the current count; a count below the start is no time.
pub proof fn lemma_elapsed_reaches_the_current_count(start_tick_count: u64, current_tick_count: u64)
    ensures
        start_tick_count <= current_tick_count ==> start_tick_count + elapsed_ticks(
            start_tick_count,
            current_tick_count,
        ) == current_tick_count,
        current_tick_count < start_tick_count ==> elapsed_ticks(start_tick_count, current_tick_count)
            == 0,
{
}

/// Law: the attestation budget is exceeded exactly when more than sixty seconds of ticks passed.
pub proof fn lemma_timeout_is_sixty_seconds(elapsed: u64, ticks_per_second: u64)
    ensures
        (elapsed > timeout_ticks(ticks_per_second)) == (elapsed > ticks_per_second * 60),
{
}

} // verus!
