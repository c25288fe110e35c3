use channels_sv2::champion::{ChampionVardiffState, DEFAULT_MIN_HASHRATE_BITS, TICK_SECS};
use channels_sv2::vardiff::Vardiff;

const NOW: u64 = 1_700_000_000;
const TEST_MIN_HASHRATE: f32 = 1.0;

fn add_shares(v: &mut ChampionVardiffState, n: u32) {
    for _ in 0..n {
        v.increment_shares_since_last_update();
    }
}

fn make_vardiff() -> ChampionVardiffState {
    ChampionVardiffState::new_with_min(TEST_MIN_HASHRATE.to_bits(), NOW).expect("construct")
}

/// Backdate both the fire timestamp and the tick anchor by `secs`.
fn simulate_elapsed(v: &mut ChampionVardiffState, secs: u64) {
    v.timestamp_of_last_update = NOW - secs;
    v.set_last_tick_secs(NOW - secs);
}

#[test]
fn new_state_has_zero_shares() {
    let v = make_vardiff();
    assert_eq!(v.shares_since_last_update(), 0);
    assert_eq!(f32::from_bits(v.min_allowed_hashrate_bits), TEST_MIN_HASHRATE);
}

#[test]
fn default_minimum_is_one_hash_per_second() {
    let v = ChampionVardiffState::new(NOW).unwrap();
    assert_eq!(v.min_allowed_hashrate_bits, DEFAULT_MIN_HASHRATE_BITS);
    assert_eq!(f32::from_bits(DEFAULT_MIN_HASHRATE_BITS), 1.0);
    assert_eq!(v.last_update_timestamp(), NOW);
    assert_eq!(v.last_tick_secs(), NOW);
    assert_eq!(v.tick_secs(), 60);
    assert_eq!(v.tau_secs(), 360);
    assert_eq!(v.n_ticks(), 0);
    assert_eq!(v.rate_bits(), 0);
}

#[test]
fn increment_shares_accumulates() {
    let mut v = make_vardiff();
    v.increment_shares_since_last_update();
    v.increment_shares_since_last_update();
    assert_eq!(v.shares_since_last_update(), 2);
}

#[test]
fn add_shares_bulk() {
    let mut v = make_vardiff();
    add_shares(&mut v, 42);
    assert_eq!(v.shares_since_last_update(), 42);
    v.add_shares(8);
    assert_eq!(v.shares_since_last_update(), 50);
}

#[test]
fn reset_counter_zeroes_state() {
    let mut v = make_vardiff();
    add_shares(&mut v, 10);
    v.reset_counter(NOW + 5).unwrap();
    assert_eq!(v.shares_since_last_update(), 0);
    assert_eq!(v.last_update_timestamp(), NOW + 5);
    assert_eq!(v.last_tick_secs(), NOW + 5);
}

#[test]
fn reset_counter_clears_sign_persistence_state() {
    // Six ticks of a miner running 5x the setpoint: every boundary
    // observation says "tightening", so the run grows.
    let mut v = make_vardiff();
    for _ in 0..6 {
        v.observe_sign(true);
    }
    let (_, consecutive_before) = v.cusum_sign_state();
    assert!(
        consecutive_before > 0,
        "precondition: sign-persistence should have accumulated"
    );
    v.observe_direction(true);
    v.reset_counter(NOW).unwrap();
    assert_eq!(v.cusum_sign_state(), (0, 0), "reset must zero cusum state");
    assert_eq!(v.direction_state(), (0, 0));
}

#[test]
fn sign_run_counts_and_restarts_on_flip() {
    let mut v = make_vardiff();
    assert_eq!(v.observe_sign(true), 1);
    assert_eq!(v.observe_sign(true), 2);
    assert_eq!(v.observe_sign(true), 3);
    assert_eq!(v.cusum_sign_state(), (1, 3));
    assert_eq!(v.observe_sign(false), 1);
    assert_eq!(v.cusum_sign_state(), (-1, 1));
    assert_eq!(v.observe_sign(false), 2);
}

#[test]
fn direction_run_accelerates_and_restarts() {
    let mut v = make_vardiff();
    assert_eq!(v.observe_direction(true), 1);
    assert_eq!(v.observe_direction(true), 2);
    assert_eq!(v.observe_direction(false), 1);
    assert_eq!(v.direction_state(), (-1, 1));
}

#[test]
fn no_fire_within_15s() {
    let mut v = make_vardiff();
    add_shares(&mut v, 100);
    simulate_elapsed(&mut v, 10);
    assert_eq!(v.advance_tick(NOW), None);
    assert_eq!(v.shares_since_last_update(), 100);
}

#[test]
fn cadence_gate_buffers_shares_between_ticks() {
    let mut v = make_vardiff();
    add_shares(&mut v, 50);
    simulate_elapsed(&mut v, 30);
    assert_eq!(v.advance_tick(NOW), None, "sub-tick call must be gated");
    assert_eq!(v.shares_since_last_update(), 50, "shares must be retained");
    assert_eq!(v.last_tick_secs(), NOW - 30);
}

#[test]
fn cadence_stays_on_grid_and_resyncs_after_long_silence() {
    let mut v = make_vardiff();
    simulate_elapsed(&mut v, 300);
    v.set_last_tick_secs(NOW - 90);
    // 90 s since the anchor: one tick due, anchor advances by exactly 60 s.
    assert_eq!(v.advance_tick(NOW), Some(300));
    assert_eq!(v.last_tick_secs(), NOW - 90 + TICK_SECS);
    // Only 30 s since the new anchor: gated.
    assert_eq!(v.advance_tick(NOW), None);
    // Two or more ticks behind: resync to now.
    v.set_last_tick_secs(NOW - 600);
    assert_eq!(v.advance_tick(NOW), Some(300));
    assert_eq!(v.last_tick_secs(), NOW);
}

#[test]
fn due_tick_after_backwards_step_reports_zero_and_reanchors() {
    let mut v = make_vardiff();
    v.set_last_tick_secs(NOW - 60);
    v.timestamp_of_last_update = NOW + 3600;
    assert_eq!(v.advance_tick(NOW), Some(0));
    assert_eq!(v.last_update_timestamp(), NOW);
}

#[test]
fn flush_window_empties_the_buffer_and_counts_ticks() {
    let mut v = make_vardiff();
    add_shares(&mut v, 12);
    assert_eq!(v.flush_window(), (12, true));
    assert_eq!(v.shares_since_last_update(), 0);
    add_shares(&mut v, 3);
    assert_eq!(v.flush_window(), (3, false));
    assert_eq!(v.n_ticks(), 2);
    v.restart_ewma(false);
    assert_eq!(v.n_ticks(), 0);
}

#[test]
fn boundary_switches_at_six_shares_per_minute() {
    let v = make_vardiff();
    assert!(v.uses_poisson_boundary(5));
    assert!(!v.uses_poisson_boundary(6));
    assert!(!v.uses_poisson_boundary(30));
}

#[test]
fn record_fire_and_restart_ewma() {
    let mut v = make_vardiff();
    v.set_rate_bits(12.5f64.to_bits());
    add_shares(&mut v, 4);
    v.record_fire(NOW + 60);
    assert_eq!(v.last_update_timestamp(), NOW + 60);
    v.restart_ewma(true);
    assert_eq!(v.rate_bits(), 0);
    assert_eq!(v.shares_since_last_update(), 0);
}

#[test]
fn backwards_clock_step_reanchors_window() {
    let mut v = make_vardiff();
    // Pretend the last update happened an hour in the future.
    v.set_timestamp_of_last_update(NOW + 3600);
    // Within the first tick: no decision, but the window is re-anchored.
    assert_eq!(v.advance_tick(NOW), None);
    assert!(v.last_update_timestamp() <= NOW + 1);
    assert_eq!(v.last_update_timestamp(), NOW);
    // A future tick anchor is pulled back too, so ticks resume one tick later.
    v.set_last_tick_secs(NOW + 3600);
    assert_eq!(v.advance_tick(NOW), None);
    assert_eq!(v.last_tick_secs(), NOW);
    assert_eq!(v.advance_tick(NOW + TICK_SECS), Some(TICK_SECS));
}

#[test]
fn configuration_is_fixed_at_construction_and_kept() {
    let mut v = make_vardiff();
    assert_eq!((v.tick_secs(), v.tau_secs()), (60, 360));
    assert!(v.uses_poisson_boundary(5) && !v.uses_poisson_boundary(6));
    add_shares(&mut v, 3);
    v.reset_counter(NOW + 10).unwrap();
    simulate_elapsed(&mut v, 120);
    let _ = v.begin_tick(NOW);
    assert_eq!((v.tick_secs(), v.tau_secs()), (60, 360));
    assert!(v.uses_poisson_boundary(5) && !v.uses_poisson_boundary(6));
}

#[test]
fn begin_tick_gates_then_flushes() {
    let mut v = make_vardiff();
    add_shares(&mut v, 9);
    simulate_elapsed(&mut v, 30);
    assert_eq!(v.begin_tick(NOW), None);
    assert_eq!(v.shares_since_last_update(), 9);
    simulate_elapsed(&mut v, 90);
    assert_eq!(v.begin_tick(NOW), Some((90, 9, true)));
    assert_eq!(v.shares_since_last_update(), 0);
    assert_eq!(v.n_ticks(), 1);
    assert_eq!(v.last_tick_secs(), NOW - 30);
}

#[test]
fn complete_tick_moves_fire_timestamp_only_on_fire() {
    let mut v = make_vardiff();
    simulate_elapsed(&mut v, 120);
    assert!(v.begin_tick(NOW).is_some());
    v.complete_tick(NOW, false);
    assert_eq!(v.last_update_timestamp(), NOW - 120);
    simulate_elapsed(&mut v, 60);
    assert_eq!(v.begin_tick(NOW), Some((60, 0, false)));
    v.complete_tick(NOW, true);
    assert_eq!(v.last_update_timestamp(), NOW);
}
