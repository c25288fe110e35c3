//! Integer state of the decline-safe adaptive EWMA ("champion") controller.
//!
//! Each evaluation tick runs estimate -> boundary -> update. The
//! floating-point formulas of those stages (EWMA, Poisson / CUSUM
//! thresholds, partial retarget) are computed on top of this state; what is
//! kept and specified here is everything they count and gate on: the fixed
//! tick cadence, the share window, the sign-persistence run of the boundary,
//! the same-direction run of the retarget, and the resets.

use vstd::prelude::*;

use crate::error::VardiffError;
use crate::vardiff::Vardiff;

verus! {

/// Bit pattern of `1.0_f32`: the default minimum hashrate (H/s).
pub const DEFAULT_MIN_HASHRATE_BITS: u32 = 0x3F80_0000;
/// EWMA tick length in seconds.
pub const TICK_SECS: u64 = 60;
/// EWMA time constant in seconds.
pub const TAU_SECS: u64 = 360;
/// Setpoints (shares per minute) below this use the Poisson boundary; at or
/// above it, the sign-persistence CUSUM boundary.
pub const SPM_THRESHOLD: u32 = 6;

/// Abstract state of a [`ChampionVardiffState`].
pub struct ChampionView {
    /// Shares received since the last EWMA tick.
    pub shares: u32,
    /// Timestamp of the last difficulty fire.
    pub last_fire: u64,
    /// Lowest hashrate the controller emits (bit pattern of an `f32`).
    pub min_hashrate_bits: u32,
    /// Timestamp of the last EWMA tick (the cadence anchor).
    pub last_tick: u64,
    /// Tick length in seconds.
    pub tick_secs: u64,
    /// EWMA time constant in seconds.
    pub tau_secs: u64,
    /// EWMA share rate (bit pattern of an `f64`).
    pub rate_bits: u64,
    /// Ticks folded into the EWMA since it was last restarted.
    pub n_ticks: u32,
    /// Poisson / CUSUM switch point in shares per minute.
    pub spm_threshold: u32,
    /// Sign of the last boundary observation: +1 tightening, -1 easing, 0 none.
    pub last_sign: i8,
    /// Consecutive boundary observations with that sign.
    pub sign_run: u32,
    /// Consecutive fires in the same direction.
    pub direction_run: u32,
    /// Direction of the last fire: +1 up, -1 down, 0 none.
    pub last_direction: i8,
}

/// Decline-safe adaptive EWMA vardiff controller for one channel.
#[derive(Debug)]
pub struct ChampionVardiffState {
    /// Count of shares received since the last EWMA tick.
    pub shares_since_last_update: u32,
    /// Timestamp (seconds) of the last difficulty fire.
    pub timestamp_of_last_update: u64,
    /// Lowest hashrate (bit pattern of an `f32`, H/s) the controller emits.
    pub min_allowed_hashrate_bits: u32,
    last_tick_secs: u64,
    tick_secs: u64,
    tau_secs: u64,
    rate_bits: u64,
    n_ticks: u32,
    spm_threshold: u32,
    cusum_last_sign: i8,
    cusum_consecutive: u32,
    consecutive_same_direction: u32,
    last_direction: i8,
}

impl View for ChampionVardiffState {
    type V = ChampionView;

    closed spec fn view(&self) -> ChampionView {
        ChampionView {
            shares: self.shares_since_last_update,
            last_fire: self.timestamp_of_last_update,
            min_hashrate_bits: self.min_allowed_hashrate_bits,
            last_tick: self.last_tick_secs,
            tick_secs: self.tick_secs,
            tau_secs: self.tau_secs,
            rate_bits: self.rate_bits,
            n_ticks: self.n_ticks,
            spm_threshold: self.spm_threshold,
            last_sign: self.cusum_last_sign,
            sign_run: self.cusum_consecutive,
            direction_run: self.consecutive_same_direction,
            last_direction: self.last_direction,
        }
    }
}

impl ChampionView {
    /// The fixed configuration every controller carries: 60 s ticks, a 360 s
    /// EWMA time constant and the Poisson / CUSUM switch at 6 shares per
    /// minute.
    pub open spec fn configured(self) -> bool {
        &&& self.tick_secs == TICK_SECS
        &&& self.tau_secs == TAU_SECS
        &&& self.spm_threshold == SPM_THRESHOLD
    }
}

/// A fresh controller anchored at `now`.
pub open spec fn champion_initial(min_hashrate_bits: u32, now: u64) -> ChampionView {
    ChampionView {
        shares: 0,
        last_fire: now,
        min_hashrate_bits,
        last_tick: now,
        tick_secs: TICK_SECS,
        tau_secs: TAU_SECS,
        rate_bits: 0,
        n_ticks: 0,
        spm_threshold: SPM_THRESHOLD,
        last_sign: 0,
        sign_run: 0,
        direction_run: 0,
        last_direction: 0,
    }
}

/// `a - b`, saturating at zero.
pub open spec fn sat_sub(a: u64, b: u64) -> u64 {
    if a >= b {
        (a - b) as u64
    } else {
        0
    }
}

/// Whether a tick is due at `now`: at least one tick length since the anchor.
pub open spec fn tick_due(s: ChampionView, now: u64) -> bool {
    sat_sub(now, s.last_tick) >= s.tick_secs
}

/// The cadence anchor after a due tick: advanced by exactly one tick length
/// (staying on the fixed grid) unless it had fallen two or more ticks behind,
/// in which case it resyncs to `now`.
pub open spec fn next_anchor(s: ChampionView, now: u64) -> u64 {
    if sat_sub(now, s.last_tick) < 2 * s.tick_secs {
        (s.last_tick + s.tick_secs) as u64
    } else {
        now
    }
}

/// The state with a future fire timestamp or tick anchor pulled back to
/// `now` (recovery from a backwards clock step).
pub open spec fn reanchored(s: ChampionView, now: u64) -> ChampionView {
    ChampionView {
        last_fire: if s.last_fire > now {
            now
        } else {
            s.last_fire
        },
        last_tick: if s.last_tick > now {
            now
        } else {
            s.last_tick
        },
        ..s
    }
}

/// The state once a due tick has started: re-anchored, the cadence anchor
/// advanced, the buffered shares flushed and the tick counted.
pub open spec fn tick_started(s: ChampionView, now: u64) -> ChampionView {
    let r = reanchored(s, now);
    ChampionView {
        last_tick: next_anchor(r, now),
        shares: 0,
        n_ticks: (r.n_ticks + 1) as u32,
        ..r
    }
}

/// The state once a tick completes: the fire timestamp moves to `now`
/// exactly when the boundary fired.
pub open spec fn tick_completed(s: ChampionView, now: u64, fired: bool) -> ChampionView {
    if fired {
        ChampionView { last_fire: now, ..s }
    } else {
        s
    }
}

/// Boundary-observation run after observing a tightening (`true`) or easing
/// window: `(last_sign, run)`.
pub open spec fn next_sign_run(s: ChampionView, tightening: bool) -> (i8, u32) {
    let sign: i8 = if tightening {
        1i8
    } else {
        -1i8
    };
    if sign == s.last_sign {
        (sign, if s.sign_run == u32::MAX {
            u32::MAX
        } else {
            (s.sign_run + 1) as u32
        })
    } else {
        (sign, 1)
    }
}

/// Fire-direction run after a fire upward (`true`) or downward:
/// `(last_direction, run)`.
pub open spec fn next_direction_run(s: ChampionView, up: bool) -> (i8, u32) {
    let direction: i8 = if up {
        1i8
    } else {
        -1i8
    };
    if direction == s.last_direction {
        (direction, (s.direction_run + 1) as u32)
    } else {
        (direction, 1)
    }
}

/// The state after `reset_counter(now)`: a fresh window, tick anchor and
/// EWMA, with the boundary and retarget runs cleared.
pub open spec fn champion_reset(s: ChampionView, now: u64) -> ChampionView {
    ChampionView {
        shares: 0,
        last_fire: now,
        last_tick: now,
        rate_bits: 0,
        n_ticks: 0,
        direction_run: 0,
        last_direction: 0,
        last_sign: 0,
        sign_run: 0,
        ..s
    }
}

impl ChampionVardiffState {
    /// The controller's invariant: its tick length, EWMA time constant and
    /// boundary switch point are the fixed configuration. Constructors
    /// establish it and every method preserves it.
    pub open spec fn wf(&self) -> bool {
        self@.configured()
    }

    /// Creates a controller anchored at `now` with the default minimum
    /// hashrate (1 H/s).
    pub fn new(now: u64) -> (r: Result<Self, VardiffError>)
        ensures
            r matches Ok(s) && s@ == champion_initial(DEFAULT_MIN_HASHRATE_BITS, now) && s.wf(),
            r matches Ok(s) && s@.shares == 0 && s@.last_fire == now && s@.last_tick == now
                && s@.rate_bits == 0 && s@.n_ticks == 0 && s@.sign_run == 0 && s@.last_sign == 0
                && s@.direction_run == 0 && s@.last_direction == 0 && s@.min_hashrate_bits
                == DEFAULT_MIN_HASHRATE_BITS,
    {
        Self::new_with_min(DEFAULT_MIN_HASHRATE_BITS, now)
    }

    /// Creates a controller anchored at `now` with the given minimum hashrate
    /// (bit pattern of an `f32`).
    pub fn new_with_min(min_allowed_hashrate_bits: u32, now: u64) -> (r: Result<Self, VardiffError>)
        ensures
            r matches Ok(s) && s@ == champion_initial(min_allowed_hashrate_bits, now) && s.wf(),
            r matches Ok(s) && s@.shares == 0 && s@.last_fire == now && s@.last_tick == now
                && s@.rate_bits == 0 && s@.n_ticks == 0 && s@.sign_run == 0 && s@.last_sign == 0
                && s@.direction_run == 0 && s@.last_direction == 0 && s@.min_hashrate_bits
                == min_allowed_hashrate_bits,
    {
        Ok(
            ChampionVardiffState {
                shares_since_last_update: 0,
                timestamp_of_last_update: now,
                min_allowed_hashrate_bits,
                last_tick_secs: now,
                tick_secs: TICK_SECS,
                tau_secs: TAU_SECS,
                rate_bits: 0,
                n_ticks: 0,
                spm_threshold: SPM_THRESHOLD,
                cusum_last_sign: 0,
                cusum_consecutive: 0,
                consecutive_same_direction: 0,
                last_direction: 0,
            },
        )
    }

    /// Sets the count of shares since the last tick.
    pub fn set_shares_since_last_update(&mut self, shares_since_last_update: u32)
        ensures
            old(self).wf() ==> final(self).wf(),
            final(self)@ == (ChampionView { shares: shares_since_last_update, ..old(self)@ }),
    {
        self.shares_since_last_update = shares_since_last_update;
    }

    /// The sign-persistence boundary state `(last_sign, consecutive)`.
    pub fn cusum_sign_state(&self) -> (st: (i8, u32))
        ensures
            st == (self@.last_sign, self@.sign_run),
    {
        (self.cusum_last_sign, self.cusum_consecutive)
    }

    /// The same-direction fire state `(last_direction, consecutive)`.
    pub fn direction_state(&self) -> (st: (i8, u32))
        ensures
            st == (self@.last_direction, self@.direction_run),
    {
        (self.last_direction, self.consecutive_same_direction)
    }

    /// Timestamp of the last EWMA tick.
    pub fn last_tick_secs(&self) -> (t: u64)
        ensures
            t == self@.last_tick,
    {
        self.last_tick_secs
    }

    /// Moves the tick-cadence anchor (used to replay elapsed time).
    pub fn set_last_tick_secs(&mut self, ts: u64)
        ensures
            old(self).wf() ==> final(self).wf(),
            final(self)@ == (ChampionView { last_tick: ts, ..old(self)@ }),
    {
        self.last_tick_secs = ts;
    }

    /// Tick length in seconds.
    pub fn tick_secs(&self) -> (t: u64)
        ensures
            t == self@.tick_secs,
    {
        self.tick_secs
    }

    /// EWMA time constant in seconds.
    pub fn tau_secs(&self) -> (t: u64)
        ensures
            t == self@.tau_secs,
    {
        self.tau_secs
    }

    /// EWMA share rate (bit pattern of an `f64`).
    pub fn rate_bits(&self) -> (b: u64)
        ensures
            b == self@.rate_bits,
    {
        self.rate_bits
    }

    /// Stores a new EWMA share rate (bit pattern of an `f64`).
    pub fn set_rate_bits(&mut self, bits: u64)
        ensures
            old(self).wf() ==> final(self).wf(),
            final(self)@ == (ChampionView { rate_bits: bits, ..old(self)@ }),
    {
        self.rate_bits = bits;
    }

    /// Ticks folded into the EWMA since it was last restarted.
    pub fn n_ticks(&self) -> (n: u32)
        ensures
            n == self@.n_ticks,
    {
        self.n_ticks
    }

    /// The tick cadence gate. A fire timestamp or tick anchor lying in the
    /// future (a backwards clock step) is first re-anchored to `now`, on every
    /// path, so the controller never stalls for the length of the step.
    /// Then returns `None` while less than one tick length has passed since
    /// the anchor (shares keep buffering); otherwise advances the anchor (see
    /// [`next_anchor`]) and returns the time since the last fire, which drives
    /// the boundary's evidence.
    pub fn advance_tick(&mut self, now: u64) -> (dt: Option<u64>)
        ensures
            old(self).wf() ==> final(self).wf(),
            !tick_due(reanchored(old(self)@, now), now) ==> dt is None && final(self)@
                == reanchored(old(self)@, now),
            tick_due(reanchored(old(self)@, now), now) ==> dt == Some(
                sat_sub(now, reanchored(old(self)@, now).last_fire),
            ) && final(self)@ == (ChampionView {
                last_tick: next_anchor(reanchored(old(self)@, now), now),
                ..reanchored(old(self)@, now)
            }),
            old(self)@.last_fire > now ==> final(self)@.last_fire == now,
            old(self)@.last_fire <= now ==> final(self)@.last_fire == old(self)@.last_fire,
            final(self)@.last_tick <= now,
            ({
                let anchor = if old(self)@.last_tick > now {
                    now
                } else {
                    old(self)@.last_tick
                };
                &&& (dt is Some <==> now - anchor >= old(self)@.tick_secs)
                &&& dt is None ==> final(self)@.last_tick == anchor
                &&& dt is Some ==> dt->0 == now - final(self)@.last_fire
                &&& dt is Some && old(self).wf() ==> now - final(self)@.last_tick < TICK_SECS
                    && (final(self)@.last_tick == anchor + TICK_SECS || final(self)@.last_tick
                    == now)
            }),
            final(self)@.shares == old(self)@.shares && final(self)@.n_ticks == old(self)@.n_ticks,
    {
        if self.timestamp_of_last_update > now {
            self.timestamp_of_last_update = now;
        }
        if self.last_tick_secs > now {
            self.last_tick_secs = now;
        }
        let since_tick = now - self.last_tick_secs;
        if since_tick < self.tick_secs {
            return None;
        }
        if since_tick - self.tick_secs < self.tick_secs {
            self.last_tick_secs = self.last_tick_secs + self.tick_secs;
        } else {
            self.last_tick_secs = now;
        }
        Some(now - self.timestamp_of_last_update)
    }

    /// Flushes the buffered shares into a tick: returns them together with
    /// whether this is the first tick of the EWMA (no history to blend).
    pub fn flush_window(&mut self) -> (out: (u32, bool))
        requires
            old(self)@.n_ticks < u32::MAX,
        ensures
            old(self).wf() ==> final(self).wf(),
            out == (old(self)@.shares, old(self)@.n_ticks == 0),
            final(self)@ == (ChampionView {
                shares: 0,
                n_ticks: (old(self)@.n_ticks + 1) as u32,
                ..old(self)@
            }),
    {
        let n = self.shares_since_last_update;
        let first = self.n_ticks == 0;
        self.n_ticks = self.n_ticks + 1;
        self.shares_since_last_update = 0;
        (n, first)
    }

    /// Starts an evaluation at `now`: the cadence gate of [`Self::advance_tick`]
    /// followed, on a due tick, by the flush of [`Self::flush_window`].
    /// Returns `None` on a gated call (only a backwards clock step is
    /// repaired); otherwise the time since the last fire, the flushed shares
    /// and whether the EWMA has no history yet.
    pub fn begin_tick(&mut self, now: u64) -> (t: Option<(u64, u32, bool)>)
        requires
            tick_due(reanchored(old(self)@, now), now) ==> old(self)@.n_ticks < u32::MAX,
        ensures
            old(self).wf() ==> final(self).wf(),
            !tick_due(reanchored(old(self)@, now), now) ==> t is None && final(self)@
                == reanchored(old(self)@, now),
            tick_due(reanchored(old(self)@, now), now) ==> t == Some(
                (
                    sat_sub(now, reanchored(old(self)@, now).last_fire),
                    old(self)@.shares,
                    old(self)@.n_ticks == 0,
                ),
            ) && final(self)@ == tick_started(old(self)@, now),
            old(self).wf() && t is Some ==> now - final(self)@.last_tick < TICK_SECS,
            t is Some ==> final(self)@.shares == 0 && final(self)@.n_ticks == old(self)@.n_ticks
                + 1 && t.unwrap().1 == old(self)@.shares && t.unwrap().2 == (old(self)@.n_ticks == 0),
            t is None ==> final(self)@.shares == old(self)@.shares && final(self)@.n_ticks
                == old(self)@.n_ticks,
            ({
                let anchor = if old(self)@.last_tick > now {
                    now
                } else {
                    old(self)@.last_tick
                };
                t is Some <==> now - anchor >= old(self)@.tick_secs
            }),
            t is Some ==> t.unwrap().0 == now - final(self)@.last_fire,
            final(self)@.last_fire == if old(self)@.last_fire > now {
                now
            } else {
                old(self)@.last_fire
            },
    {
        let dt = self.advance_tick(now);
        match dt {
            None => None,
            Some(dt) => {
                let (shares, first) = self.flush_window();
                Some((dt, shares, first))
            },
        }
    }

    /// Completes an evaluation at `now`: a fire restarts the boundary's
    /// evidence from `now`; a tick that did not fire changes nothing.
    pub fn complete_tick(&mut self, now: u64, fired: bool)
        ensures
            old(self).wf() ==> final(self).wf(),
            final(self)@ == tick_completed(old(self)@, now, fired),
            final(self)@.last_fire == if fired {
                now
            } else {
                old(self)@.last_fire
            },
            final(self)@ == (ChampionView { last_fire: final(self)@.last_fire, ..old(self)@ }),
    {
        if fired {
            self.timestamp_of_last_update = now;
        }
    }

    /// Whether a setpoint of `spm_whole` shares per minute (the setpoint
    /// truncated to an integer) is judged by the Poisson boundary rather than
    /// the sign-persistence CUSUM.
    pub fn uses_poisson_boundary(&self, spm_whole: u32) -> (b: bool)
        ensures
            b == (spm_whole < self@.spm_threshold),
    {
        spm_whole < self.spm_threshold
    }

    /// Records one CUSUM boundary observation (tightening when the realized
    /// rate exceeds the setpoint) and returns the length of the current
    /// same-sign run, which sets the sign-persistence discount.
    pub fn observe_sign(&mut self, tightening: bool) -> (run: u32)
        ensures
            old(self).wf() ==> final(self).wf(),
            (final(self)@.last_sign, final(self)@.sign_run) == next_sign_run(old(self)@, tightening),
            run == final(self)@.sign_run,
            run >= 1,
            final(self)@.last_sign == (if tightening {
                1i8
            } else {
                -1i8
            }),
            (if tightening {
                1i8
            } else {
                -1i8
            }) != old(self)@.last_sign ==> run == 1,
            (if tightening {
                1i8
            } else {
                -1i8
            }) == old(self)@.last_sign ==> run == (if old(self)@.sign_run == u32::MAX {
                u32::MAX as int
            } else {
                old(self)@.sign_run + 1
            }),
            final(self)@ == (ChampionView {
                last_sign: final(self)@.last_sign,
                sign_run: final(self)@.sign_run,
                ..old(self)@
            }),
    {
        let current_sign: i8 = if tightening {
            1
        } else {
            -1
        };
        if current_sign == self.cusum_last_sign {
            self.cusum_consecutive = self.cusum_consecutive.saturating_add(1);
            self.cusum_consecutive
        } else {
            self.cusum_last_sign = current_sign;
            self.cusum_consecutive = 1;
            1
        }
    }

    /// Records one fire upward (`true`) or downward and returns the length of
    /// the current same-direction run, which accelerates the retarget.
    pub fn observe_direction(&mut self, up: bool) -> (run: u32)
        requires
            (if up {
                1i8
            } else {
                -1i8
            }) == old(self)@.last_direction ==> old(self)@.direction_run < u32::MAX,
        ensures
            old(self).wf() ==> final(self).wf(),
            (final(self)@.last_direction, final(self)@.direction_run) == next_direction_run(
                old(self)@,
                up,
            ),
            run == final(self)@.direction_run,
            final(self)@.last_direction == (if up {
                1i8
            } else {
                -1i8
            }),
            (if up {
                1i8
            } else {
                -1i8
            }) == old(self)@.last_direction ==> run == old(self)@.direction_run + 1,
            (if up {
                1i8
            } else {
                -1i8
            }) != old(self)@.last_direction ==> run == 1,
            final(self)@ == (ChampionView {
                last_direction: final(self)@.last_direction,
                direction_run: final(self)@.direction_run,
                ..old(self)@
            }),
    {
        let direction: i8 = if up {
            1
        } else {
            -1
        };
        if direction == self.last_direction {
            self.consecutive_same_direction = self.consecutive_same_direction + 1;
            self.consecutive_same_direction
        } else {
            self.last_direction = direction;
            self.consecutive_same_direction = 1;
            1
        }
    }

    /// Records a fire at `now`: the boundary's evidence restarts from here.
    pub fn record_fire(&mut self, now: u64)
        ensures
            old(self).wf() ==> final(self).wf(),
            final(self)@ == (ChampionView { last_fire: now, ..old(self)@ }),
    {
        self.timestamp_of_last_update = now;
    }

    /// Restarts the EWMA (rate zero, no ticks); with `drop_shares` the
    /// buffered shares are discarded too.
    pub fn restart_ewma(&mut self, drop_shares: bool)
        ensures
            old(self).wf() ==> final(self).wf(),
            final(self)@ == (ChampionView {
                rate_bits: 0,
                n_ticks: 0,
                shares: if drop_shares {
                    0
                } else {
                    old(self)@.shares
                },
                ..old(self)@
            }),
    {
        self.rate_bits = 0;
        self.n_ticks = 0;
        if drop_shares {
            self.shares_since_last_update = 0;
        }
    }
}

impl Vardiff for ChampionVardiffState {
    open spec fn window_shares(&self) -> u32 {
        self@.shares
    }

    open spec fn window_start(&self) -> u64 {
        self@.last_fire
    }

    fn last_update_timestamp(&self) -> (ts: u64) {
        self.timestamp_of_last_update
    }

    fn shares_since_last_update(&self) -> (n: u32) {
        self.shares_since_last_update
    }

    fn set_timestamp_of_last_update(&mut self, timestamp: u64)
        ensures
            old(self).wf() ==> final(self).wf(),
            final(self)@ == (ChampionView { last_fire: timestamp, ..old(self)@ }),
    {
        self.timestamp_of_last_update = timestamp;
    }

    fn increment_shares_since_last_update(&mut self)
        ensures
            old(self).wf() ==> final(self).wf(),
            final(self)@ == (ChampionView { shares: (old(self)@.shares + 1) as u32, ..old(self)@ }),
    {
        self.shares_since_last_update = self.shares_since_last_update + 1;
    }

    fn add_shares(&mut self, n: u32)
        ensures
            old(self).wf() ==> final(self).wf(),
            final(self)@ == (ChampionView { shares: (old(self)@.shares + n) as u32, ..old(self)@ }),
    {
        self.shares_since_last_update = self.shares_since_last_update + n;
    }

    fn reset_counter(&mut self, now: u64) -> (r: Result<(), VardiffError>)
        ensures
            old(self).wf() ==> final(self).wf(),
            final(self)@ == champion_reset(old(self)@, now),
            final(self)@.rate_bits == 0 && final(self)@.n_ticks == 0,
            final(self)@.shares == 0 && final(self)@.last_fire == now && final(self)@.last_tick
                == now,
            final(self)@.last_sign == 0 && final(self)@.sign_run == 0,
            final(self)@.last_direction == 0 && final(self)@.direction_run == 0,
            final(self)@.min_hashrate_bits == old(self)@.min_hashrate_bits,
    {
        self.timestamp_of_last_update = now;
        self.last_tick_secs = now;
        self.rate_bits = 0;
        self.shares_since_last_update = 0;
        self.n_ticks = 0;
        self.consecutive_same_direction = 0;
        self.last_direction = 0;
        self.cusum_last_sign = 0;
        self.cusum_consecutive = 0;
        Ok(())
    }
}

/// Once a tick is taken the cadence anchor never lies in the future and lags
/// `now` by less than one tick length: the controller never falls more than
/// one tick behind, and the anchor either stays on the fixed grid (advanced
/// by exactly one tick) or resyncs to `now`.
pub proof fn lemma_cadence_keeps_up(s: ChampionView, now: u64)
    requires
        s.tick_secs > 0,
        tick_due(s, now),
    ensures
        next_anchor(s, now) <= now,
        now - next_anchor(s, now) < s.tick_secs,
        next_anchor(s, now) == s.last_tick + s.tick_secs || next_anchor(s, now) == now,
{
}

/// A tick is due again only once a full tick length has passed since the new
/// anchor: between two ticks the cadence stays closed.
pub proof fn lemma_cadence_gate_shut_until_next_tick(s: ChampionView, now: u64, later: u64)
    requires
        s.tick_secs > 0,
        tick_due(s, now),
        now <= later,
        later < next_anchor(s, now) + s.tick_secs,
    ensures
        !tick_due(ChampionView { last_tick: next_anchor(s, now), ..s }, later),
{
}

/// The integer bookkeeping of one evaluation: on a gated call only a
/// backwards clock step is repaired; on a due tick the buffered shares are
/// flushed and the tick counted, and the fire timestamp moves to `now`
/// exactly when the boundary fires, whatever the boundary and retarget
/// stages (which only touch the EWMA rate, the sign and direction runs and
/// the buffered shares) did in between.
pub proof fn lemma_tick_bookkeeping(s: ChampionView, mid: ChampionView, now: u64, fired: bool)
    requires
        tick_due(reanchored(s, now), now),
        s.n_ticks < u32::MAX,
        mid.last_fire == tick_started(s, now).last_fire,
        mid.last_tick == tick_started(s, now).last_tick,
        mid.n_ticks == tick_started(s, now).n_ticks,
    ensures
        tick_completed(mid, now, fired).last_fire == if fired {
            now
        } else if s.last_fire > now {
            now
        } else {
            s.last_fire
        },
        tick_completed(mid, now, fired).last_tick == next_anchor(reanchored(s, now), now),
        tick_completed(mid, now, fired).n_ticks == reanchored(s, now).n_ticks + 1,
{
}

/// Sign persistence counts a run of same-sign boundary observations: the
/// observed sign (tightening +1, easing -1) becomes the last sign; a change
/// of sign restarts the run at 1, a repeat extends it by one (saturating).
pub proof fn lemma_sign_run_counts(s: ChampionView, tightening: bool)
    ensures
        next_sign_run(s, tightening).0 == (if tightening {
            1i8
        } else {
            -1i8
        }),
        next_sign_run(s, tightening).0 != s.last_sign ==> next_sign_run(s, tightening).1 == 1,
        next_sign_run(s, tightening).0 == s.last_sign && s.sign_run < u32::MAX ==> next_sign_run(
            s,
            tightening,
        ).1 == s.sign_run + 1,
        next_sign_run(s, tightening).0 == s.last_sign && s.sign_run == u32::MAX ==> next_sign_run(
            s,
            tightening,
        ).1 == u32::MAX,
{
}

/// The retarget accelerates over a run of same-direction fires, downward as
/// upward: the fire's direction (up +1, down -1) becomes the last direction;
/// a repeat extends the run by one, a change restarts it at 1.
pub proof fn lemma_direction_run_counts(s: ChampionView, up: bool)
    requires
        s.direction_run < u32::MAX,
    ensures
        next_direction_run(s, up).0 == (if up {
            1i8
        } else {
            -1i8
        }),
        next_direction_run(s, up).0 == s.last_direction ==> next_direction_run(s, up).1
            == s.direction_run + 1,
        next_direction_run(s, up).0 != s.last_direction ==> next_direction_run(s, up).1 == 1,
{
}

/// A reset restarts everything that accumulates: the share window, tick
/// anchor and fire timestamp move to `now`, the EWMA rate and tick count go
/// to zero, and the sign and direction runs are cleared; only the
/// configuration and the minimum hashrate survive.
pub proof fn lemma_reset_restarts(s: ChampionView, now: u64)
    ensures
        champion_reset(s, now).shares == 0,
        champion_reset(s, now).last_fire == now,
        champion_reset(s, now).last_tick == now,
        champion_reset(s, now).rate_bits == 0,
        champion_reset(s, now).n_ticks == 0,
        champion_reset(s, now).last_sign == 0 && champion_reset(s, now).sign_run == 0,
        champion_reset(s, now).last_direction == 0 && champion_reset(s, now).direction_run == 0,
        champion_reset(s, now).min_hashrate_bits == s.min_hashrate_bits,
        champion_reset(s, now).tick_secs == s.tick_secs,
        champion_reset(s, now).tau_secs == s.tau_secs,
        champion_reset(s, now).spm_threshold == s.spm_threshold,
{
}

} // verus!
