//! The production vardiff state: the decline-safe adaptive EWMA controller.

use vstd::prelude::*;

use crate::champion::{
    champion_initial, champion_reset, ChampionVardiffState, ChampionView,
    DEFAULT_MIN_HASHRATE_BITS,
};
use crate::error::VardiffError;
use crate::vardiff::Vardiff;

verus! {

/// Variable difficulty controller used in production: an EWMA estimator
/// (tau = 360 s, 60 s ticks), the Poisson / sign-persistence CUSUM boundary
/// switching at 6 shares per minute, and an accelerating partial retarget.
#[derive(Debug)]
pub struct VardiffState {
    inner: ChampionVardiffState,
}

impl View for VardiffState {
    type V = ChampionView;

    closed spec fn view(&self) -> ChampionView {
        self.inner@
    }
}

impl VardiffState {
    /// The controller's invariant: the fixed tick length, EWMA time constant
    /// and boundary switch point.
    pub open spec fn wf(&self) -> bool {
        self@.configured()
    }

    /// Creates a `VardiffState` anchored at `now` with the default minimum
    /// hashrate (1 H/s).
    pub fn new(now: u64) -> (r: Result<Self, VardiffError>)
        ensures
            r matches Ok(s) && s@ == champion_initial(DEFAULT_MIN_HASHRATE_BITS, now) && s.wf(),
            r matches Ok(s) && s@.shares == 0 && s@.last_fire == now && s@.last_tick == now
                && s@.rate_bits == 0 && s@.n_ticks == 0 && s@.sign_run == 0 && s@.last_sign == 0
                && s@.direction_run == 0 && s@.last_direction == 0 && s@.min_hashrate_bits
                == DEFAULT_MIN_HASHRATE_BITS,
    {
        Self::new_with_min(DEFAULT_MIN_HASHRATE_BITS, now)
    }

    /// Creates a `VardiffState` anchored at `now` with a specific minimum
    /// hashrate (bit pattern of an `f32`).
    pub fn new_with_min(min_allowed_hashrate_bits: u32, now: u64) -> (r: Result<Self, VardiffError>)
        ensures
            r matches Ok(s) && s@ == champion_initial(min_allowed_hashrate_bits, now) && s.wf(),
            r matches Ok(s) && s@.shares == 0 && s@.last_fire == now && s@.last_tick == now
                && s@.rate_bits == 0 && s@.n_ticks == 0 && s@.sign_run == 0 && s@.last_sign == 0
                && s@.direction_run == 0 && s@.last_direction == 0 && s@.min_hashrate_bits
                == min_allowed_hashrate_bits,
    {
        match ChampionVardiffState::new_with_min(min_allowed_hashrate_bits, now) {
            Ok(inner) => Ok(VardiffState { inner }),
            Err(e) => Err(e),
        }
    }

    /// The underlying controller.
    pub fn controller(&self) -> (c: &ChampionVardiffState)
        ensures
            c@ == self@,
    {
        &self.inner
    }

    /// The underlying controller, for running an evaluation tick.
    pub fn controller_mut(&mut self) -> (c: &mut ChampionVardiffState)
        ensures
            c@ == old(self)@,
            c.wf() == old(self).wf(),
            final(self)@ == final(c)@,
    {
        &mut self.inner
    }
}

impl Vardiff for VardiffState {
    open spec fn window_shares(&self) -> u32 {
        self@.shares
    }

    open spec fn window_start(&self) -> u64 {
        self@.last_fire
    }

    fn last_update_timestamp(&self) -> (ts: u64) {
        self.inner.last_update_timestamp()
    }

    fn shares_since_last_update(&self) -> (n: u32) {
        self.inner.shares_since_last_update()
    }

    fn set_timestamp_of_last_update(&mut self, timestamp: u64)
        ensures
            old(self).wf() ==> final(self).wf(),
            final(self)@ == (ChampionView { last_fire: timestamp, ..old(self)@ }),
    {
        self.inner.set_timestamp_of_last_update(timestamp);
    }

    fn increment_shares_since_last_update(&mut self)
        ensures
            old(self).wf() ==> final(self).wf(),
            final(self)@ == (ChampionView { shares: (old(self)@.shares + 1) as u32, ..old(self)@ }),
    {
        self.inner.increment_shares_since_last_update();
    }

    fn add_shares(&mut self, n: u32)
        ensures
            old(self).wf() ==> final(self).wf(),
            final(self)@ == (ChampionView { shares: (old(self)@.shares + n) as u32, ..old(self)@ }),
    {
        self.inner.add_shares(n);
    }

    fn reset_counter(&mut self, now: u64) -> (r: Result<(), VardiffError>)
        ensures
            old(self).wf() ==> final(self).wf(),
            final(self)@ == champion_reset(old(self)@, now),
            final(self)@.rate_bits == 0 && final(self)@.n_ticks == 0,
            final(self)@.shares == 0 && final(self)@.last_fire == now && final(self)@.last_tick
                == now,
            final(self)@.last_sign == 0 && final(self)@.sign_run == 0,
            final(self)@.last_direction == 0 && final(self)@.direction_run == 0,
            final(self)@.min_hashrate_bits == old(self)@.min_hashrate_bits,
    {
        self.inner.reset_counter(now)
    }
}

} // verus!
