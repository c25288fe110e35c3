//! Implementation-agnostic helpers for exercising any [`Vardiff`] controller.

use vstd::prelude::*;

use crate::vardiff::Vardiff;

verus! {

/// Feeds `num_shares` shares into the window, then backdates the window
/// start so that `wait_duration_secs` seconds appear to have elapsed by `now`.
pub fn simulate_shares_and_wait<V: Vardiff>(
    vardiff: &mut V,
    num_shares: u32,
    wait_duration_secs: u64,
    now: u64,
)
    requires
        old(vardiff).window_shares() + num_shares <= u32::MAX,
        wait_duration_secs <= now,
    ensures
        final(vardiff).window_shares() == old(vardiff).window_shares() + num_shares,
        final(vardiff).window_start() == now - wait_duration_secs,
{
    let mut i: u32 = 0;
    while i < num_shares
        invariant
            i <= num_shares,
            vardiff.window_shares() == old(vardiff).window_shares() + i,
            old(vardiff).window_shares() + num_shares <= u32::MAX,
        decreases num_shares - i,
    {
        vardiff.increment_shares_since_last_update();
        i = i + 1;
    }
    vardiff.set_timestamp_of_last_update(now - wait_duration_secs);
}

} // verus!
