//! The share-window interface every vardiff controller exposes.

use vstd::prelude::*;

use crate::error::VardiffError;

verus! {

/// Share counting and window timing common to all vardiff controllers.
///
/// The difficulty decision itself (`try_vardiff`) is floating-point work done
/// on top of this interface; here the window bookkeeping is specified.
pub trait Vardiff {
    /// Shares counted in the current window.
    spec fn window_shares(&self) -> u32;

    /// Timestamp (seconds) the current window is anchored at.
    spec fn window_start(&self) -> u64;

    /// Timestamp (seconds) of the last update.
    fn last_update_timestamp(&self) -> (ts: u64)
        ensures
            ts == self.window_start(),
    ;

    /// Shares counted since the last update.
    fn shares_since_last_update(&self) -> (n: u32)
        ensures
            n == self.window_shares(),
    ;

    /// Re-anchors the window at `timestamp`, keeping its shares.
    fn set_timestamp_of_last_update(&mut self, timestamp: u64)
        ensures
            final(self).window_start() == timestamp,
            final(self).window_shares() == old(self).window_shares(),
    ;

    /// Counts one more share.
    fn increment_shares_since_last_update(&mut self)
        requires
            old(self).window_shares() < u32::MAX,
        ensures
            final(self).window_shares() == old(self).window_shares() + 1,
            final(self).window_start() == old(self).window_start(),
    ;

    /// Counts `n` more shares.
    fn add_shares(&mut self, n: u32)
        requires
            old(self).window_shares() + n <= u32::MAX,
        ensures
            final(self).window_shares() == old(self).window_shares() + n,
            final(self).window_start() == old(self).window_start(),
    ;

    /// Starts a fresh window at `now`; never fails.
    fn reset_counter(&mut self, now: u64) -> (r: Result<(), VardiffError>)
        ensures
            r is Ok,
            final(self).window_shares() == 0,
            final(self).window_start() == now,
    ;
}

} // verus!
