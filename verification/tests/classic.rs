use channels_sv2::champion::DEFAULT_MIN_HASHRATE_BITS;
use channels_sv2::classic::VardiffState;
use channels_sv2::testing::simulate_shares_and_wait;
use channels_sv2::vardiff::Vardiff;

const NOW: u64 = 1_700_000_000;

#[test]
fn vardiff_state_starts_empty_at_now() {
    let v = VardiffState::new(NOW).unwrap();
    assert_eq!(v.shares_since_last_update(), 0);
    assert_eq!(v.last_update_timestamp(), NOW);
    assert_eq!(v.controller().min_allowed_hashrate_bits, DEFAULT_MIN_HASHRATE_BITS);
}

#[test]
fn vardiff_state_with_min_keeps_minimum() {
    let v = VardiffState::new_with_min(10.0f32.to_bits(), NOW).unwrap();
    assert_eq!(f32::from_bits(v.controller().min_allowed_hashrate_bits), 10.0);
}

#[test]
fn simulate_shares_and_wait_backdates_window() {
    let mut v = VardiffState::new(NOW).unwrap();
    simulate_shares_and_wait(&mut v, 12, 60, NOW);
    assert_eq!(v.shares_since_last_update(), 12);
    assert_eq!(v.last_update_timestamp(), NOW - 60);
    simulate_shares_and_wait(&mut v, 3, 0, NOW);
    assert_eq!(v.shares_since_last_update(), 15);
    assert_eq!(v.last_update_timestamp(), NOW);
}

#[test]
fn vardiff_state_delegates_to_controller() {
    let mut v = VardiffState::new(NOW).unwrap();
    v.add_shares(7);
    v.controller_mut().set_last_tick_secs(NOW - 60);
    assert_eq!(v.controller_mut().advance_tick(NOW), Some(0));
    assert_eq!(v.controller_mut().flush_window(), (7, true));
    v.reset_counter(NOW + 1).unwrap();
    assert_eq!(v.shares_since_last_update(), 0);
    assert_eq!(v.last_update_timestamp(), NOW + 1);
}

#[test]
fn vardiff_state_reanchors_after_backwards_clock_step() {
    let mut v = VardiffState::new(NOW).unwrap();
    v.set_timestamp_of_last_update(NOW + 3600);
    assert_eq!(v.controller_mut().advance_tick(NOW), None);
    assert!(v.last_update_timestamp() <= NOW + 1);
}
